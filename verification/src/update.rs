//! The release-feed version check: semantic versions, the release-tag
//! grammar, and the strict comparison against the running version. The
//! network fetch itself happens outside the library, which hands in the tag
//! it got — or nothing, when the fetch failed.

use vstd::prelude::*;
use crate::encoding::dec_digits;
use crate::encoding::eat_lit;
use crate::encoding::eq_bytes;
use crate::encoding::is_digit;
use crate::encoding::lemma_add_assoc;
use crate::encoding::lemma_dec_digits_shape;
use crate::encoding::lemma_digit_run_at_intro;
use crate::encoding::lemma_skip_decompose;
use crate::encoding::push_dec_u64;
use crate::encoding::scan_dec_u64;

verus! {

/// A semantic version: major, minor and patch numbers.
#[derive(Debug, Clone, Copy, PartialEq, Eq, Structural)]
pub struct Version {
    pub major: u64,
    pub minor: u64,
    pub patch: u64,
}

/// Strict semantic-version order: by major, then minor, then patch.
pub open spec fn version_lt(a: Version, b: Version) -> bool {
    ||| a.major < b.major
    ||| (a.major == b.major && a.minor < b.minor)
    ||| (a.major == b.major && a.minor == b.minor && a.patch < b.patch)
}

impl Version {
    /// A version from its three numbers.
    pub fn new(major: u64, minor: u64, patch: u64) -> (r: Version)
        ensures
            r == (Version { major, minor, patch }),
    {
        Version { major, minor, patch }
    }

    /// Whether `self` is strictly newer than `other`.
    pub fn newer_than(&self, other: &Version) -> (r: bool)
        ensures
            r == version_lt(*other, *self),
    {
        if other.major != self.major {
            other.major < self.major
        } else if other.minor != self.minor {
            other.minor < self.minor
        } else {
            other.patch < self.patch
        }
    }
}

/// The optional leading `v` of a release tag.
pub open spec fn lead_seq(lead: bool) -> Seq<u8> {
    if lead {
        seq![118u8]
    } else {
        Seq::<u8>::empty()
    }
}

/// The dot between two version numbers.
pub open spec fn dot() -> Seq<u8> {
    seq![46u8]
}

/// The release tag of `v`: its three numerals separated by dots, with one
/// leading `v` or none.
pub open spec fn version_tag(lead: bool, v: Version) -> Seq<u8> {
    lead_seq(lead) + (dec_digits(v.major as nat) + (dot() + (dec_digits(v.minor as nat) + (dot()
        + dec_digits(v.patch as nat)))))
}

/// `s` is a release tag of exactly the version `v`.
pub open spec fn is_version_tag(s: Seq<u8>, v: Version) -> bool {
    exists|lead: bool| s == version_tag(lead, v)
}

/// The exec form of the dot.
fn exec_dot() -> (r: Vec<u8>)
    ensures
        r@ == dot(),
{
    let mut v: Vec<u8> = Vec::new();
    v.push(46);
    proof {
        assert(v@ =~= dot());
    }
    v
}

/// Writes the release tag of `v`, with or without the leading `v`.
fn emit_version_tag(lead: bool, v: &Version) -> (r: Vec<u8>)
    ensures
        r@ == version_tag(lead, *v),
{
    let ghost ls = lead_seq(lead);
    let ghost d1 = dec_digits(v.major as nat);
    let ghost d2 = dec_digits(v.minor as nat);
    let ghost d3 = dec_digits(v.patch as nat);
    let ghost dt = dot();
    let mut out: Vec<u8> = Vec::new();
    if lead {
        out.push(118);
    }
    proof {
        assert(out@ =~= ls);
    }
    push_dec_u64(&mut out, v.major);
    out.push(46);
    proof {
        assert(out@ =~= ls + d1 + dt);
    }
    push_dec_u64(&mut out, v.minor);
    out.push(46);
    proof {
        assert(out@ =~= ls + d1 + dt + d2 + dt);
    }
    push_dec_u64(&mut out, v.patch);
    proof {
        assert(out@ == ls + d1 + dt + d2 + dt + d3);
        lemma_add_assoc(ls + d1 + dt + d2, dt, d3);
        lemma_add_assoc(ls + d1 + dt, d2, dt + d3);
        lemma_add_assoc(ls + d1, dt, d2 + (dt + d3));
        lemma_add_assoc(ls, d1, dt + (d2 + (dt + d3)));
        assert(out@ == version_tag(lead, *v));
    }
    out
}

/// Reads the numerals-and-dots part of a release tag, starting past any
/// leading `v`: whenever the tag is an encoding whose numerals start at
/// `start`, the call returns exactly that version.
#[verifier::rlimit(100)]
#[verifier::spinoff_prover]
fn parse_tag_numbers(tag: &Vec<u8>, start: usize) -> (r: Option<Version>)
    requires
        start <= tag@.len(),
        forall|lead: bool, v: Version|
            tag@ == #[trigger] version_tag(lead, v) ==> tag@.skip(start as int) == dec_digits(
                v.major as nat,
            ) + (dot() + (dec_digits(v.minor as nat) + (dot() + dec_digits(v.patch as nat)))),
    ensures
        forall|lead: bool, v: Version|
            tag@ == #[trigger] version_tag(lead, v) ==> r == Some(v),
{
    let (maj0, q1) = match scan_dec_u64(tag, start) {
        Some(p) => p,
        None => {
            proof {
                assert forall|lead: bool, v: Version|
                    tag@ != #[trigger] version_tag(lead, v) by {
                    if tag@ == version_tag(lead, v) {
                        assert((dot() + (dec_digits(v.minor as nat) + (dot() + dec_digits(
                            v.patch as nat,
                        ))))[0] == 46u8);
                        lemma_digit_run_at_intro(
                            tag@,
                            start as int,
                            v.major,
                            dot() + (dec_digits(v.minor as nat) + (dot() + dec_digits(
                                v.patch as nat,
                            ))),
                        );
                        assert(false);
                    }
                }
            }
            return None;
        },
    };
    proof {
        assert forall|lead: bool, v: Version| tag@ == #[trigger] version_tag(lead, v) implies
            v.major == maj0 && tag@.skip(q1 as int) == dot() + (dec_digits(v.minor as nat) + (dot()
            + dec_digits(v.patch as nat))) by {
            assert((dot() + (dec_digits(v.minor as nat) + (dot() + dec_digits(v.patch as nat))))[0]
                == 46u8);
            lemma_digit_run_at_intro(
                tag@,
                start as int,
                v.major,
                dot() + (dec_digits(v.minor as nat) + (dot() + dec_digits(v.patch as nat))),
            );
            lemma_skip_decompose(
                tag@,
                start as int,
                dec_digits(v.major as nat),
                dot() + (dec_digits(v.minor as nat) + (dot() + dec_digits(v.patch as nat))),
            );
        }
    }
    let k_dot = exec_dot();
    let q2 = match eat_lit(tag, q1, &k_dot) {
        Some(p) => p,
        None => {
            proof {
                assert forall|lead: bool, v: Version|
                    tag@ != #[trigger] version_tag(lead, v) by {
                    if tag@ == version_tag(lead, v) {
                        lemma_skip_decompose(
                            tag@,
                            q1 as int,
                            dot(),
                            dec_digits(v.minor as nat) + (dot() + dec_digits(v.patch as nat)),
                        );
                        assert(false);
                    }
                }
            }
            return None;
        },
    };
    proof {
        assert forall|lead: bool, v: Version| tag@ == #[trigger] version_tag(lead, v) implies
            tag@.skip(q2 as int) == dec_digits(v.minor as nat) + (dot() + dec_digits(
            v.patch as nat,
        )) by {
            lemma_skip_decompose(
                tag@,
                q1 as int,
                dot(),
                dec_digits(v.minor as nat) + (dot() + dec_digits(v.patch as nat)),
            );
        }
    }
    let (min0, q3) = match scan_dec_u64(tag, q2) {
        Some(p) => p,
        None => {
            proof {
                assert forall|lead: bool, v: Version|
                    tag@ != #[trigger] version_tag(lead, v) by {
                    if tag@ == version_tag(lead, v) {
                        assert((dot() + dec_digits(v.patch as nat))[0] == 46u8);
                        lemma_digit_run_at_intro(
                            tag@,
                            q2 as int,
                            v.minor,
                            dot() + dec_digits(v.patch as nat),
                        );
                        assert(false);
                    }
                }
            }
            return None;
        },
    };
    proof {
        assert forall|lead: bool, v: Version| tag@ == #[trigger] version_tag(lead, v) implies
            v.minor == min0 && tag@.skip(q3 as int) == dot() + dec_digits(v.patch as nat) by {
            assert((dot() + dec_digits(v.patch as nat))[0] == 46u8);
            lemma_digit_run_at_intro(tag@, q2 as int, v.minor, dot() + dec_digits(v.patch as nat));
            lemma_skip_decompose(
                tag@,
                q2 as int,
                dec_digits(v.minor as nat),
                dot() + dec_digits(v.patch as nat),
            );
        }
    }
    let k_dot2 = exec_dot();
    let q4 = match eat_lit(tag, q3, &k_dot2) {
        Some(p) => p,
        None => {
            proof {
                assert forall|lead: bool, v: Version|
                    tag@ != #[trigger] version_tag(lead, v) by {
                    if tag@ == version_tag(lead, v) {
                        lemma_skip_decompose(tag@, q3 as int, dot(), dec_digits(v.patch as nat));
                        assert(false);
                    }
                }
            }
            return None;
        },
    };
    proof {
        assert forall|lead: bool, v: Version| tag@ == #[trigger] version_tag(lead, v) implies
            tag@.skip(q4 as int) == dec_digits(v.patch as nat) by {
            lemma_skip_decompose(tag@, q3 as int, dot(), dec_digits(v.patch as nat));
        }
    }
    let (pat0, q5) = match scan_dec_u64(tag, q4) {
        Some(p) => p,
        None => {
            proof {
                assert forall|lead: bool, v: Version|
                    tag@ != #[trigger] version_tag(lead, v) by {
                    if tag@ == version_tag(lead, v) {
                        assert(dec_digits(v.patch as nat) + Seq::<u8>::empty() =~= dec_digits(
                            v.patch as nat,
                        ));
                        lemma_digit_run_at_intro(tag@, q4 as int, v.patch, Seq::<u8>::empty());
                        assert(false);
                    }
                }
            }
            return None;
        },
    };
    if q5 != tag.len() {
        proof {
            assert forall|lead: bool, v: Version| tag@ != #[trigger] version_tag(lead, v) by {
                if tag@ == version_tag(lead, v) {
                    assert(dec_digits(v.patch as nat) + Seq::<u8>::empty() =~= dec_digits(
                        v.patch as nat,
                    ));
                    lemma_digit_run_at_intro(tag@, q4 as int, v.patch, Seq::<u8>::empty());
                    lemma_skip_decompose(
                        tag@,
                        q4 as int,
                        dec_digits(v.patch as nat),
                        Seq::<u8>::empty(),
                    );
                    assert(false);
                }
            }
        }
        return None;
    }
    proof {
        assert forall|lead: bool, v: Version| tag@ == #[trigger] version_tag(lead, v) implies
            v.patch == pat0 by {
            assert(dec_digits(v.patch as nat) + Seq::<u8>::empty() =~= dec_digits(v.patch as nat));
            lemma_digit_run_at_intro(tag@, q4 as int, v.patch, Seq::<u8>::empty());
        }
    }
    Some(Version { major: maj0, minor: min0, patch: pat0 })
}

/// Reads a release tag of the form `vMAJOR.MINOR.PATCH` (the leading `v`
/// optional, each numeral canonical): exactly the version the tag encodes,
/// or `None` when the tag encodes none.
#[verifier::rlimit(100)]
#[verifier::spinoff_prover]
pub fn parse_version_tag(tag: &Vec<u8>) -> (r: Option<Version>)
    ensures
        (match r {
            Some(v) => is_version_tag(tag@, v),
            None => forall|v: Version| !is_version_tag(tag@, v),
        }),
        forall|v: Version| #[trigger] is_version_tag(tag@, v) ==> r == Some(v),
{
    let lead0 = tag.len() >= 1 && tag[0] == 118;
    let start: usize = if lead0 {
        1
    } else {
        0
    };
    proof {
        assert forall|lead: bool, v: Version| tag@ == #[trigger] version_tag(lead, v) implies lead
            == lead0 && tag@.skip(start as int) == dec_digits(v.major as nat) + (dot() + (
        dec_digits(v.minor as nat) + (dot() + dec_digits(v.patch as nat)))) by {
            lemma_dec_digits_shape(v.major as nat);
            assert(tag@.skip(0) =~= tag@);
            if lead {
                lemma_skip_decompose(
                    tag@,
                    0,
                    lead_seq(lead),
                    dec_digits(v.major as nat) + (dot() + (dec_digits(v.minor as nat) + (dot()
                        + dec_digits(v.patch as nat)))),
                );
                assert(tag@.subrange(0, 1)[0] == tag@[0]);
                assert(tag@[0] == 118u8);
            } else {
                assert(lead_seq(false) + (dec_digits(v.major as nat) + (dot() + (dec_digits(
                    v.minor as nat,
                ) + (dot() + dec_digits(v.patch as nat))))) =~= dec_digits(v.major as nat) + (dot()
                    + (dec_digits(v.minor as nat) + (dot() + dec_digits(v.patch as nat)))));
                assert((dec_digits(v.major as nat) + (dot() + (dec_digits(v.minor as nat) + (dot()
                    + dec_digits(v.patch as nat)))))[0] == dec_digits(v.major as nat)[0]);
                assert(is_digit(tag@[0]));
                assert(tag@[0] != 118u8);
                lemma_skip_decompose(
                    tag@,
                    0,
                    lead_seq(lead),
                    dec_digits(v.major as nat) + (dot() + (dec_digits(v.minor as nat) + (dot()
                        + dec_digits(v.patch as nat)))),
                );
            }
        }
    }
    let parsed = match parse_tag_numbers(tag, start) {
        Some(w) => w,
        None => {
            proof {
                assert forall|v: Version| !is_version_tag(tag@, v) by {
                    if is_version_tag(tag@, v) {
                        let lead = choose|lead: bool| tag@ == version_tag(lead, v);
                        assert(false);
                    }
                }
            }
            return None;
        },
    };
    let canon = emit_version_tag(lead0, &parsed);
    if eq_bytes(tag, &canon) {
        proof {
            assert(tag@ == version_tag(lead0, parsed));
            assert(is_version_tag(tag@, parsed));
            assert forall|v: Version| #[trigger] is_version_tag(tag@, v) implies Some(parsed)
                == Some(v) by {
                let lead = choose|lead: bool| tag@ == version_tag(lead, v);
            }
        }
        Some(parsed)
    } else {
        proof {
            assert forall|v: Version| !is_version_tag(tag@, v) by {
                if is_version_tag(tag@, v) {
                    let lead = choose|lead: bool| tag@ == version_tag(lead, v);
                    assert(v == parsed && lead == lead0);
                    assert(false);
                }
            }
        }
        None
    }
}

/// The outcome of one update check: the running version, the latest
/// version the feed reported, and whether that one is strictly newer.
#[derive(Debug, Clone, Copy, PartialEq, Eq)]
pub struct UpdateStatus {
    pub current_version: Version,
    pub latest_version: Option<Version>,
    pub update_available: bool,
}

/// Why an update check yielded no status.
#[derive(Debug, Clone, Copy, PartialEq, Eq, Structural)]
pub enum UpdateError {
    /// The release feed could not be fetched or yielded no tag.
    FeedUnavailable,
    /// The fetched tag is not a `vMAJOR.MINOR.PATCH` version.
    InvalidVersionTag,
}

/// What an update check against the running version `current` returns for
/// the fetched tag `tag`: the status with the tag's version and the strict
/// comparison where the tag is one, the reportable error where it is none.
pub open spec fn check_outcome(
    current: Version,
    tag: Seq<u8>,
    r: Result<UpdateStatus, UpdateError>,
) -> bool {
    &&& (forall|v: Version| #[trigger]
        is_version_tag(tag, v) ==> r == Ok::<UpdateStatus, UpdateError>(
            UpdateStatus {
                current_version: current,
                latest_version: Some(v),
                update_available: version_lt(current, v),
            },
        ))
    &&& ((forall|v: Version| !is_version_tag(tag, v)) ==> r == Err::<UpdateStatus, UpdateError>(
        UpdateError::InvalidVersionTag,
    ))
    &&& (r matches Ok(st) ==> (st.latest_version matches Some(lv) && is_version_tag(tag, lv)
        && st.current_version == current && st.update_available == version_lt(current, lv)))
}

/// Compares the running version against what the release feed reports.
pub struct UpdateChecker {
    current_version: Version,
}

impl UpdateChecker {
    /// The running version this checker compares against.
    pub closed spec fn spec_current_version(&self) -> Version {
        self.current_version
    }

    /// A checker for the running version of this crate.
    pub fn new() -> (r: UpdateChecker)
        ensures
            r.spec_current_version() == (Version { major: 0, minor: 1, patch: 0 }),
    {
        UpdateChecker { current_version: Version::new(0, 1, 0) }
    }

    /// Decides one update check from what the feed returned. `None` stands
    /// for a failed fetch and is a reportable error; a tag that is no
    /// version is one too; otherwise the status carries the latest version
    /// and whether it is strictly newer than the running one. Nothing else
    /// is touched either way.
    pub fn check_for_updates(&self, feed_tag: Option<&Vec<u8>>) -> (r: Result<
        UpdateStatus,
        UpdateError,
    >)
        ensures
            feed_tag is None ==> r == Err::<UpdateStatus, UpdateError>(
                UpdateError::FeedUnavailable,
            ),
            feed_tag is Some ==> check_outcome(self.spec_current_version(), feed_tag->0@, r),
    {
        match feed_tag {
            None => Err(UpdateError::FeedUnavailable),
            Some(tag) => match parse_version_tag(tag) {
                Some(latest) => Ok(
                    UpdateStatus {
                        current_version: self.current_version,
                        latest_version: Some(latest),
                        update_available: latest.newer_than(&self.current_version),
                    },
                ),
                None => Err(UpdateError::InvalidVersionTag),
            },
        }
    }
}

} // verus!
