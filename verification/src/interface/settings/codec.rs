//! The persisted form of the selections: one JSON object with the five
//! durable fields, written in one canonical shape and read back strictly.
//! Anything but a canonical encoding reads as "unparsable", which callers
//! turn into the documented defaults.

use vstd::prelude::*;
use crate::encoding::dec_digits;
use crate::encoding::eat_lit;
use crate::encoding::eq_bytes;
use crate::encoding::lemma_digit_run_at_intro;
use crate::encoding::lemma_skip_decompose;
use crate::encoding::push_dec_u64;
use crate::encoding::run_boundary;
use crate::encoding::scan_dec_u64;
use crate::interface::settings::Settings;

verus! {

/// The opening of the object up to the auto-update value.
pub open spec fn key_auto() -> Seq<u8> {
    seq![123u8, 34u8, 97u8, 117u8, 116u8, 111u8, 95u8, 117u8, 112u8, 100u8, 97u8, 116u8, 101u8, 34u8, 58u8]
}

/// The separator and key before the buffer-size value.
pub open spec fn key_buffer() -> Seq<u8> {
    seq![44u8, 34u8, 98u8, 117u8, 102u8, 102u8, 101u8, 114u8, 95u8, 115u8, 105u8, 122u8, 101u8, 34u8, 58u8]
}

/// The separator and key before the sample-rate value.
pub open spec fn key_rate() -> Seq<u8> {
    seq![44u8, 34u8, 115u8, 97u8, 109u8, 112u8, 108u8, 101u8, 95u8, 114u8, 97u8, 116u8, 101u8, 34u8, 58u8]
}

/// The separator and key before the selected-input value.
pub open spec fn key_input() -> Seq<u8> {
    seq![44u8, 34u8, 115u8, 101u8, 108u8, 101u8, 99u8, 116u8, 101u8, 100u8, 95u8, 105u8, 110u8, 112u8, 117u8, 116u8, 95u8, 100u8, 101u8, 118u8, 105u8, 99u8, 101u8, 34u8, 58u8]
}

/// The separator and key before the selected-output value.
pub open spec fn key_output() -> Seq<u8> {
    seq![44u8, 34u8, 115u8, 101u8, 108u8, 101u8, 99u8, 116u8, 101u8, 100u8, 95u8, 111u8, 117u8, 116u8, 112u8, 117u8, 116u8, 95u8, 100u8, 101u8, 118u8, 105u8, 99u8, 101u8, 34u8, 58u8]
}

/// The literal `true`.
pub open spec fn lit_true() -> Seq<u8> {
    seq![116u8, 114u8, 117u8, 101u8]
}

/// The literal `false`.
pub open spec fn lit_false() -> Seq<u8> {
    seq![102u8, 97u8, 108u8, 115u8, 101u8]
}

/// The literal `null`.
pub open spec fn lit_null() -> Seq<u8> {
    seq![110u8, 117u8, 108u8, 108u8]
}

/// The closing brace.
pub open spec fn lit_close() -> Seq<u8> {
    seq![125u8]
}

/// A JSON boolean value.
pub open spec fn json_bool(b: bool) -> Seq<u8> {
    if b {
        lit_true()
    } else {
        lit_false()
    }
}

/// An optional catalog position: its numeral, or `null` when unset.
pub open spec fn json_opt_index(x: Option<usize>) -> Seq<u8> {
    match x {
        Some(n) => dec_digits(n as nat),
        None => lit_null(),
    }
}

/// The encoding from the selected-output value on.
pub open spec fn enc_after_input(selected_output: Option<usize>) -> Seq<u8> {
    json_opt_index(selected_output) + lit_close()
}

/// The encoding from the selected-input key on.
pub open spec fn enc_after_rate(
    selected_input: Option<usize>,
    selected_output: Option<usize>,
) -> Seq<u8> {
    key_input() + (json_opt_index(selected_input) + (key_output() + enc_after_input(
        selected_output,
    )))
}

/// The encoding from the sample-rate key on.
pub open spec fn enc_after_buffer(
    sample_rate: u32,
    selected_input: Option<usize>,
    selected_output: Option<usize>,
) -> Seq<u8> {
    key_rate() + (dec_digits(sample_rate as nat) + enc_after_rate(selected_input, selected_output))
}

/// The encoding from the buffer-size key on.
pub open spec fn enc_after_auto(
    buffer_size: u32,
    sample_rate: u32,
    selected_input: Option<usize>,
    selected_output: Option<usize>,
) -> Seq<u8> {
    key_buffer() + (dec_digits(buffer_size as nat) + enc_after_buffer(
        sample_rate,
        selected_input,
        selected_output,
    ))
}

/// The encoding from the auto-update value on.
pub open spec fn enc_after_open(
    auto_update: bool,
    buffer_size: u32,
    sample_rate: u32,
    selected_input: Option<usize>,
    selected_output: Option<usize>,
) -> Seq<u8> {
    json_bool(auto_update) + enc_after_auto(
        buffer_size,
        sample_rate,
        selected_input,
        selected_output,
    )
}

/// The canonical encoding of the five persisted fields.
pub open spec fn settings_json(
    auto_update: bool,
    buffer_size: u32,
    sample_rate: u32,
    selected_input: Option<usize>,
    selected_output: Option<usize>,
) -> Seq<u8> {
    key_auto() + enc_after_open(
        auto_update,
        buffer_size,
        sample_rate,
        selected_input,
        selected_output,
    )
}

/// `s` is the persisted form of exactly the settings `v` (whose transient
/// update status is unset, as a freshly loaded state's is).
pub open spec fn is_settings_encoding(s: Seq<u8>, v: Settings) -> bool {
    &&& s == settings_json(
        v.auto_update,
        v.buffer_size,
        v.sample_rate,
        v.selected_input_device,
        v.selected_output_device,
    )
    &&& v.update_status is None
}

fn exec_key_auto() -> (r: Vec<u8>)
    ensures
        r@ == key_auto(),
{
    let mut v: Vec<u8> = Vec::new();
    v.push(123);
    v.push(34);
    v.push(97);
    v.push(117);
    v.push(116);
    v.push(111);
    v.push(95);
    v.push(117);
    v.push(112);
    v.push(100);
    v.push(97);
    v.push(116);
    v.push(101);
    v.push(34);
    v.push(58);
    proof {
        assert(v@ =~= key_auto());
    }
    v
}

fn exec_key_buffer() -> (r: Vec<u8>)
    ensures
        r@ == key_buffer(),
{
    let mut v: Vec<u8> = Vec::new();
    v.push(44);
    v.push(34);
    v.push(98);
    v.push(117);
    v.push(102);
    v.push(102);
    v.push(101);
    v.push(114);
    v.push(95);
    v.push(115);
    v.push(105);
    v.push(122);
    v.push(101);
    v.push(34);
    v.push(58);
    proof {
        assert(v@ =~= key_buffer());
    }
    v
}

fn exec_key_rate() -> (r: Vec<u8>)
    ensures
        r@ == key_rate(),
{
    let mut v: Vec<u8> = Vec::new();
    v.push(44);
    v.push(34);
    v.push(115);
    v.push(97);
    v.push(109);
    v.push(112);
    v.push(108);
    v.push(101);
    v.push(95);
    v.push(114);
    v.push(97);
    v.push(116);
    v.push(101);
    v.push(34);
    v.push(58);
    proof {
        assert(v@ =~= key_rate());
    }
    v
}

fn exec_key_input() -> (r: Vec<u8>)
    ensures
        r@ == key_input(),
{
    let mut v: Vec<u8> = Vec::new();
    v.push(44);
    v.push(34);
    v.push(115);
    v.push(101);
    v.push(108);
    v.push(101);
    v.push(99);
    v.push(116);
    v.push(101);
    v.push(100);
    v.push(95);
    v.push(105);
    v.push(110);
    v.push(112);
    v.push(117);
    v.push(116);
    v.push(95);
    v.push(100);
    v.push(101);
    v.push(118);
    v.push(105);
    v.push(99);
    v.push(101);
    v.push(34);
    v.push(58);
    proof {
        assert(v@ =~= key_input());
    }
    v
}

fn exec_key_output() -> (r: Vec<u8>)
    ensures
        r@ == key_output(),
{
    let mut v: Vec<u8> = Vec::new();
    v.push(44);
    v.push(34);
    v.push(115);
    v.push(101);
    v.push(108);
    v.push(101);
    v.push(99);
    v.push(116);
    v.push(101);
    v.push(100);
    v.push(95);
    v.push(111);
    v.push(117);
    v.push(116);
    v.push(112);
    v.push(117);
    v.push(116);
    v.push(95);
    v.push(100);
    v.push(101);
    v.push(118);
    v.push(105);
    v.push(99);
    v.push(101);
    v.push(34);
    v.push(58);
    proof {
        assert(v@ =~= key_output());
    }
    v
}

fn exec_lit_true() -> (r: Vec<u8>)
    ensures
        r@ == lit_true(),
{
    let mut v: Vec<u8> = Vec::new();
    v.push(116);
    v.push(114);
    v.push(117);
    v.push(101);
    proof {
        assert(v@ =~= lit_true());
    }
    v
}

fn exec_lit_false() -> (r: Vec<u8>)
    ensures
        r@ == lit_false(),
{
    let mut v: Vec<u8> = Vec::new();
    v.push(102);
    v.push(97);
    v.push(108);
    v.push(115);
    v.push(101);
    proof {
        assert(v@ =~= lit_false());
    }
    v
}

fn exec_lit_null() -> (r: Vec<u8>)
    ensures
        r@ == lit_null(),
{
    let mut v: Vec<u8> = Vec::new();
    v.push(110);
    v.push(117);
    v.push(108);
    v.push(108);
    proof {
        assert(v@ =~= lit_null());
    }
    v
}

/// At offset `start` of `s` stands the boolean token of `b`, then `rest`.
pub open spec fn bool_at(s: Seq<u8>, start: int, b: bool, rest: Seq<u8>) -> bool {
    s.skip(start) == json_bool(b) + rest
}

/// At offset `start` of `s` stands the numeral of the 32-bit `n`, then
/// `rest`, which cannot extend the numeral.
pub open spec fn u32_at(s: Seq<u8>, start: int, n: u32, rest: Seq<u8>) -> bool {
    &&& s.skip(start) == dec_digits(n as nat) + rest
    &&& run_boundary(rest)
}

/// At offset `start` of `s` stands the optional-position token of `x`, then
/// `rest`, which can extend neither a numeral nor the `null` token.
pub open spec fn opt_index_at(s: Seq<u8>, start: int, x: Option<usize>, rest: Seq<u8>) -> bool {
    &&& s.skip(start) == json_opt_index(x) + rest
    &&& run_boundary(rest)
    &&& rest.len() > 0
    &&& rest[0] != 110
}

/// Reads a boolean token. Whenever the token of some `b` stands at `start`,
/// the call returns exactly `b` and the offset past the token.
fn parse_bool(bytes: &Vec<u8>, start: usize) -> (r: Option<(bool, usize)>)
    requires
        start <= bytes@.len(),
    ensures
        forall|b: bool, rest: Seq<u8>| #[trigger]
            bool_at(bytes@, start as int, b, rest) ==> (r matches Some(p) && p.0 == b && p.1
                == start + json_bool(b).len()),
        r matches Some(p) ==> start <= p.1 <= bytes@.len(),
{
    let k_true = exec_lit_true();
    match eat_lit(bytes, start, &k_true) {
        Some(end) => {
            proof {
                assert forall|b: bool, rest: Seq<u8>| #[trigger]
                    bool_at(bytes@, start as int, b, rest) implies b == true && end == start
                    + json_bool(b).len() by {
                    if !b {
                        lemma_skip_decompose(bytes@, start as int, lit_false(), rest);
                        assert(bytes@.subrange(start as int, start + 5)[0] == bytes@[start as int]);
                        assert(bytes@.subrange(start as int, start + 4)[0] == bytes@[start as int]);
                        assert(lit_false()[0] == 102u8);
                        assert(lit_true()[0] == 116u8);
                        assert(false);
                    }
                }
            }
            Some((true, end))
        },
        None => {
            let k_false = exec_lit_false();
            match eat_lit(bytes, start, &k_false) {
                Some(end) => {
                    proof {
                        assert forall|b: bool, rest: Seq<u8>| #[trigger]
                            bool_at(bytes@, start as int, b, rest) implies b == false && end
                            == start + json_bool(b).len() by {
                            if b {
                                lemma_skip_decompose(bytes@, start as int, lit_true(), rest);
                                assert(false);
                            }
                        }
                    }
                    Some((false, end))
                },
                None => {
                    proof {
                        assert forall|b: bool, rest: Seq<u8>|
                            !bool_at(bytes@, start as int, b, rest) by {
                            if bool_at(bytes@, start as int, b, rest) {
                                if b {
                                    lemma_skip_decompose(bytes@, start as int, lit_true(), rest);
                                } else {
                                    lemma_skip_decompose(bytes@, start as int, lit_false(), rest);
                                }
                                assert(false);
                            }
                        }
                    }
                    None
                },
            }
        },
    }
}

/// Reads the numeral of a 32-bit value. Whenever the numeral of some `n`
/// stands at `start`, ended by a run boundary, the call returns exactly `n`
/// and the offset past its digits.
fn parse_u32_field(bytes: &Vec<u8>, start: usize) -> (r: Option<(u32, usize)>)
    requires
        start <= bytes@.len(),
    ensures
        forall|n: u32, rest: Seq<u8>| #[trigger]
            u32_at(bytes@, start as int, n, rest) ==> (r matches Some(p) && p.0 == n && p.1 == start
                + dec_digits(n as nat).len()),
        r matches Some(p) ==> start <= p.1 <= bytes@.len(),
{
    match scan_dec_u64(bytes, start) {
        Some((m, end)) => {
            if m <= u32::MAX as u64 {
                proof {
                    assert forall|n: u32, rest: Seq<u8>| #[trigger]
                        u32_at(bytes@, start as int, n, rest) implies (m as u32) == n && end
                        == start + dec_digits(n as nat).len() by {
                        lemma_digit_run_at_intro(bytes@, start as int, n as u64, rest);
                    }
                }
                Some((m as u32, end))
            } else {
                proof {
                    assert forall|n: u32, rest: Seq<u8>|
                        !u32_at(bytes@, start as int, n, rest) by {
                        if u32_at(bytes@, start as int, n, rest) {
                            lemma_digit_run_at_intro(bytes@, start as int, n as u64, rest);
                            assert(false);
                        }
                    }
                }
                None
            }
        },
        None => {
            proof {
                assert forall|n: u32, rest: Seq<u8>| !u32_at(bytes@, start as int, n, rest) by {
                    if u32_at(bytes@, start as int, n, rest) {
                        lemma_digit_run_at_intro(bytes@, start as int, n as u64, rest);
                        assert(false);
                    }
                }
            }
            None
        },
    }
}

/// Reads an optional-position token: `null`, or the numeral of a position.
/// Whenever the token of some `x` stands at `start`, followed by something
/// that extends neither a numeral nor `null`, the call returns exactly `x`
/// and the offset past the token.
fn parse_opt_index(bytes: &Vec<u8>, start: usize) -> (r: Option<(Option<usize>, usize)>)
    requires
        start <= bytes@.len(),
    ensures
        forall|x: Option<usize>, rest: Seq<u8>| #[trigger]
            opt_index_at(bytes@, start as int, x, rest) ==> (r matches Some(p) && p.0 == x && p.1
                == start + json_opt_index(x).len()),
        r matches Some(p) ==> start <= p.1 <= bytes@.len(),
{
    let k_null = exec_lit_null();
    match eat_lit(bytes, start, &k_null) {
        Some(end) => {
            proof {
                assert forall|x: Option<usize>, rest: Seq<u8>| #[trigger]
                    opt_index_at(bytes@, start as int, x, rest) implies x is None && end == start
                    + json_opt_index(x).len() by {
                    match x {
                        Some(n) => {
                            crate::encoding::lemma_dec_digits_shape(n as nat);
                            lemma_skip_decompose(bytes@, start as int, dec_digits(n as nat), rest);
                            assert(bytes@.subrange(
                                start as int,
                                start + dec_digits(n as nat).len(),
                            )[0] == bytes@[start as int]);
                            assert(bytes@.subrange(start as int, start + 4)[0]
                                == bytes@[start as int]);
                            assert(lit_null()[0] == 110u8);
                            assert(crate::encoding::is_digit(dec_digits(n as nat)[0]));
                            assert(false);
                        },
                        None => {},
                    }
                }
            }
            Some((None, end))
        },
        None => {
            match scan_dec_u64(bytes, start) {
                Some((m, end)) => {
                    if m <= usize::MAX as u64 {
                        proof {
                            assert forall|x: Option<usize>, rest: Seq<u8>| #[trigger]
                                opt_index_at(bytes@, start as int, x, rest) implies x == Some(
                                m as usize,
                            ) && end == start + json_opt_index(x).len() by {
                                match x {
                                    Some(n) => {
                                        lemma_digit_run_at_intro(
                                            bytes@,
                                            start as int,
                                            n as u64,
                                            rest,
                                        );
                                        assert(m == n as u64);
                                        assert(n == m as usize);
                                    },
                                    None => {
                                        lemma_skip_decompose(
                                            bytes@,
                                            start as int,
                                            lit_null(),
                                            rest,
                                        );
                                        assert(false);
                                    },
                                }
                            }
                        }
                        Some((Some(m as usize), end))
                    } else {
                        proof {
                            assert forall|x: Option<usize>, rest: Seq<u8>|
                                !opt_index_at(bytes@, start as int, x, rest) by {
                                if opt_index_at(bytes@, start as int, x, rest) {
                                    match x {
                                        Some(n) => {
                                            lemma_digit_run_at_intro(
                                                bytes@,
                                                start as int,
                                                n as u64,
                                                rest,
                                            );
                                            assert(m == n as u64);
                                            assert(false);
                                        },
                                        None => {
                                            lemma_skip_decompose(
                                                bytes@,
                                                start as int,
                                                lit_null(),
                                                rest,
                                            );
                                            assert(false);
                                        },
                                    }
                                }
                            }
                        }
                        None
                    }
                },
                None => {
                    proof {
                        assert forall|x: Option<usize>, rest: Seq<u8>|
                            !opt_index_at(bytes@, start as int, x, rest) by {
                            if opt_index_at(bytes@, start as int, x, rest) {
                                match x {
                                    Some(n) => {
                                        lemma_digit_run_at_intro(
                                            bytes@,
                                            start as int,
                                            n as u64,
                                            rest,
                                        );
                                        assert(false);
                                    },
                                    None => {
                                        lemma_skip_decompose(bytes@, start as int, lit_null(), rest);
                                        assert(false);
                                    },
                                }
                            }
                        }
                    }
                    None
                },
            }
        },
    }
}

/// The encoding of `v` from the auto-update value on.
spec fn tail_open(v: Settings) -> Seq<u8> {
    enc_after_open(
        v.auto_update,
        v.buffer_size,
        v.sample_rate,
        v.selected_input_device,
        v.selected_output_device,
    )
}

/// The encoding of `v` from the buffer-size key on.
spec fn tail_auto(v: Settings) -> Seq<u8> {
    enc_after_auto(v.buffer_size, v.sample_rate, v.selected_input_device, v.selected_output_device)
}

/// The encoding of `v` from the sample-rate key on.
spec fn tail_buffer(v: Settings) -> Seq<u8> {
    enc_after_buffer(v.sample_rate, v.selected_input_device, v.selected_output_device)
}

/// The encoding of `v` from the selected-input key on.
spec fn tail_rate(v: Settings) -> Seq<u8> {
    enc_after_rate(v.selected_input_device, v.selected_output_device)
}

/// The encoding of `v` from the selected-output value on.
spec fn tail_input(v: Settings) -> Seq<u8> {
    enc_after_input(v.selected_output_device)
}

/// Reads the opening of the persisted form, through the auto-update value:
/// whenever the input encodes some settings, the call returns exactly their
/// auto-update flag and the offset of the buffer-size key.
#[verifier::spinoff_prover]
fn parse_open_auto(bytes: &Vec<u8>) -> (r: Option<(bool, usize)>)
    ensures
        forall|v: Settings| #[trigger]
            is_settings_encoding(bytes@, v) ==> (r matches Some(h) && h.0 == v.auto_update
                && bytes@.skip(h.1 as int) == tail_auto(v)),
        r matches Some(h) ==> h.1 <= bytes@.len(),
{
    let k_auto = exec_key_auto();
    let p0 = match eat_lit(bytes, 0, &k_auto) {
        Some(p) => p,
        None => {
            proof {
                assert forall|v: Settings| !is_settings_encoding(bytes@, v) by {
                    if is_settings_encoding(bytes@, v) {
                        assert(bytes@.skip(0) =~= bytes@);
                        lemma_skip_decompose(bytes@, 0, key_auto(), tail_open(v));
                        assert(false);
                    }
                }
            }
            return None;
        },
    };
    proof {
        assert forall|v: Settings| #[trigger] is_settings_encoding(bytes@, v) implies bytes@.skip(
            p0 as int,
        ) == tail_open(v) by {
            assert(bytes@.skip(0) =~= bytes@);
            lemma_skip_decompose(bytes@, 0, key_auto(), tail_open(v));
        }
    }
    let (auto0, p1) = match parse_bool(bytes, p0) {
        Some(p) => p,
        None => {
            proof {
                assert forall|v: Settings| !is_settings_encoding(bytes@, v) by {
                    if is_settings_encoding(bytes@, v) {
                        assert(bool_at(bytes@, p0 as int, v.auto_update, tail_auto(v)));
                        assert(false);
                    }
                }
            }
            return None;
        },
    };
    proof {
        assert forall|v: Settings| #[trigger] is_settings_encoding(bytes@, v) implies v.auto_update
            == auto0 && bytes@.skip(p1 as int) == tail_auto(v) by {
            assert(bool_at(bytes@, p0 as int, v.auto_update, tail_auto(v)));
            lemma_skip_decompose(bytes@, p0 as int, json_bool(v.auto_update), tail_auto(v));
        }
    }
    Some((auto0, p1))
}

/// Reads the buffer-size and sample-rate fields and the selected-input key,
/// starting at the buffer-size key: whenever the input encodes some
/// settings (whose buffer-size key stands at `p1`), the call returns
/// exactly those two fields and the offset of the selected-input value.
#[verifier::rlimit(100)]
#[verifier::spinoff_prover]
fn parse_middle_fields(bytes: &Vec<u8>, p1: usize) -> (r: Option<(u32, u32, usize)>)
    requires
        p1 <= bytes@.len(),
        forall|v: Settings| #[trigger]
            is_settings_encoding(bytes@, v) ==> bytes@.skip(p1 as int) == tail_auto(v),
    ensures
        forall|v: Settings| #[trigger]
            is_settings_encoding(bytes@, v) ==> (r matches Some(h) && h.0 == v.buffer_size && h.1
                == v.sample_rate && bytes@.skip(h.2 as int) == json_opt_index(
                v.selected_input_device,
            ) + (key_output() + tail_input(v))),
        r matches Some(h) ==> h.2 <= bytes@.len(),
{
    let k_buffer = exec_key_buffer();
    let p2 = match eat_lit(bytes, p1, &k_buffer) {
        Some(p) => p,
        None => {
            proof {
                assert forall|v: Settings| !is_settings_encoding(bytes@, v) by {
                    if is_settings_encoding(bytes@, v) {
                        lemma_skip_decompose(
                            bytes@,
                            p1 as int,
                            key_buffer(),
                            dec_digits(v.buffer_size as nat) + tail_buffer(v),
                        );
                        assert(false);
                    }
                }
            }
            return None;
        },
    };
    proof {
        assert forall|v: Settings| #[trigger] is_settings_encoding(bytes@, v) implies bytes@.skip(
            p2 as int,
        ) == dec_digits(v.buffer_size as nat) + tail_buffer(v) by {
            lemma_skip_decompose(
                bytes@,
                p1 as int,
                key_buffer(),
                dec_digits(v.buffer_size as nat) + tail_buffer(v),
            );
        }
    }
    let (buf0, p3) = match parse_u32_field(bytes, p2) {
        Some(p) => p,
        None => {
            proof {
                assert forall|v: Settings| !is_settings_encoding(bytes@, v) by {
                    if is_settings_encoding(bytes@, v) {
                        assert(tail_buffer(v)[0] == 44u8);
                        assert(u32_at(bytes@, p2 as int, v.buffer_size, tail_buffer(v)));
                        assert(false);
                    }
                }
            }
            return None;
        },
    };
    proof {
        assert forall|v: Settings| #[trigger] is_settings_encoding(bytes@, v) implies v.buffer_size
            == buf0 && bytes@.skip(p3 as int) == tail_buffer(v) by {
            assert(tail_buffer(v)[0] == 44u8);
            assert(u32_at(bytes@, p2 as int, v.buffer_size, tail_buffer(v)));
            lemma_skip_decompose(
                bytes@,
                p2 as int,
                dec_digits(v.buffer_size as nat),
                tail_buffer(v),
            );
        }
    }
    let k_rate = exec_key_rate();
    let p4 = match eat_lit(bytes, p3, &k_rate) {
        Some(p) => p,
        None => {
            proof {
                assert forall|v: Settings| !is_settings_encoding(bytes@, v) by {
                    if is_settings_encoding(bytes@, v) {
                        lemma_skip_decompose(
                            bytes@,
                            p3 as int,
                            key_rate(),
                            dec_digits(v.sample_rate as nat) + tail_rate(v),
                        );
                        assert(false);
                    }
                }
            }
            return None;
        },
    };
    proof {
        assert forall|v: Settings| #[trigger] is_settings_encoding(bytes@, v) implies bytes@.skip(
            p4 as int,
        ) == dec_digits(v.sample_rate as nat) + tail_rate(v) by {
            lemma_skip_decompose(
                bytes@,
                p3 as int,
                key_rate(),
                dec_digits(v.sample_rate as nat) + tail_rate(v),
            );
        }
    }
    let (rate0, p5) = match parse_u32_field(bytes, p4) {
        Some(p) => p,
        None => {
            proof {
                assert forall|v: Settings| !is_settings_encoding(bytes@, v) by {
                    if is_settings_encoding(bytes@, v) {
                        assert(tail_rate(v)[0] == 44u8);
                        assert(u32_at(bytes@, p4 as int, v.sample_rate, tail_rate(v)));
                        assert(false);
                    }
                }
            }
            return None;
        },
    };
    proof {
        assert forall|v: Settings| #[trigger] is_settings_encoding(bytes@, v) implies v.sample_rate
            == rate0 && bytes@.skip(p5 as int) == tail_rate(v) by {
            assert(tail_rate(v)[0] == 44u8);
            assert(u32_at(bytes@, p4 as int, v.sample_rate, tail_rate(v)));
            lemma_skip_decompose(bytes@, p4 as int, dec_digits(v.sample_rate as nat), tail_rate(v));
        }
    }
    let k_input = exec_key_input();
    let p6 = match eat_lit(bytes, p5, &k_input) {
        Some(p) => p,
        None => {
            proof {
                assert forall|v: Settings| !is_settings_encoding(bytes@, v) by {
                    if is_settings_encoding(bytes@, v) {
                        lemma_skip_decompose(
                            bytes@,
                            p5 as int,
                            key_input(),
                            json_opt_index(v.selected_input_device) + (key_output() + tail_input(
                                v,
                            )),
                        );
                        assert(false);
                    }
                }
            }
            return None;
        },
    };
    proof {
        assert forall|v: Settings| #[trigger] is_settings_encoding(bytes@, v) implies bytes@.skip(
            p6 as int,
        ) == json_opt_index(v.selected_input_device) + (key_output() + tail_input(v)) by {
            lemma_skip_decompose(
                bytes@,
                p5 as int,
                key_input(),
                json_opt_index(v.selected_input_device) + (key_output() + tail_input(v)),
            );
        }
    }
    Some((buf0, rate0, p6))
}

/// Reads the two device selections and the closing brace, starting at the
/// selected-input value: whenever the input encodes some settings (whose
/// selected-input value stands at `p6`), the call returns exactly the two
/// selections.
#[verifier::spinoff_prover]
fn parse_selections(bytes: &Vec<u8>, p6: usize) -> (r: Option<(Option<usize>, Option<usize>)>)
    requires
        p6 <= bytes@.len(),
        forall|v: Settings| #[trigger]
            is_settings_encoding(bytes@, v) ==> bytes@.skip(p6 as int) == json_opt_index(
                v.selected_input_device,
            ) + (key_output() + tail_input(v)),
    ensures
        forall|v: Settings| #[trigger]
            is_settings_encoding(bytes@, v) ==> (r matches Some(h) && h.0
                == v.selected_input_device && h.1 == v.selected_output_device),
{
    let (in0, p7) = match parse_opt_index(bytes, p6) {
        Some(p) => p,
        None => {
            proof {
                assert forall|v: Settings| !is_settings_encoding(bytes@, v) by {
                    if is_settings_encoding(bytes@, v) {
                        assert((key_output() + tail_input(v))[0] == 44u8);
                        assert(opt_index_at(
                            bytes@,
                            p6 as int,
                            v.selected_input_device,
                            key_output() + tail_input(v),
                        ));
                        assert(false);
                    }
                }
            }
            return None;
        },
    };
    proof {
        assert forall|v: Settings| #[trigger] is_settings_encoding(bytes@, v) implies
            v.selected_input_device == in0 && bytes@.skip(p7 as int) == key_output() + tail_input(
            v,
        ) by {
            assert((key_output() + tail_input(v))[0] == 44u8);
            assert(opt_index_at(
                bytes@,
                p6 as int,
                v.selected_input_device,
                key_output() + tail_input(v),
            ));
            lemma_skip_decompose(
                bytes@,
                p6 as int,
                json_opt_index(v.selected_input_device),
                key_output() + tail_input(v),
            );
        }
    }
    let k_output = exec_key_output();
    let p8 = match eat_lit(bytes, p7, &k_output) {
        Some(p) => p,
        None => {
            proof {
                assert forall|v: Settings| !is_settings_encoding(bytes@, v) by {
                    if is_settings_encoding(bytes@, v) {
                        lemma_skip_decompose(bytes@, p7 as int, key_output(), tail_input(v));
                        assert(false);
                    }
                }
            }
            return None;
        },
    };
    proof {
        assert forall|v: Settings| #[trigger] is_settings_encoding(bytes@, v) implies bytes@.skip(
            p8 as int,
        ) == json_opt_index(v.selected_output_device) + lit_close() by {
            lemma_skip_decompose(bytes@, p7 as int, key_output(), tail_input(v));
        }
    }
    let (out0, p9) = match parse_opt_index(bytes, p8) {
        Some(p) => p,
        None => {
            proof {
                assert forall|v: Settings| !is_settings_encoding(bytes@, v) by {
                    if is_settings_encoding(bytes@, v) {
                        assert(lit_close()[0] == 125u8);
                        assert(opt_index_at(
                            bytes@,
                            p8 as int,
                            v.selected_output_device,
                            lit_close(),
                        ));
                        assert(false);
                    }
                }
            }
            return None;
        },
    };
    proof {
        assert forall|v: Settings| #[trigger] is_settings_encoding(bytes@, v) implies
            v.selected_output_device == out0 && bytes@.skip(p9 as int) == lit_close() by {
            assert(lit_close()[0] == 125u8);
            assert(opt_index_at(bytes@, p8 as int, v.selected_output_device, lit_close()));
            lemma_skip_decompose(
                bytes@,
                p8 as int,
                json_opt_index(v.selected_output_device),
                lit_close(),
            );
        }
    }
    let k_close = exec_lit_close();
    let p10 = match eat_lit(bytes, p9, &k_close) {
        Some(p) => p,
        None => {
            proof {
                assert forall|v: Settings| !is_settings_encoding(bytes@, v) by {
                    if is_settings_encoding(bytes@, v) {
                        assert(lit_close() + Seq::<u8>::empty() =~= lit_close());
                        lemma_skip_decompose(bytes@, p9 as int, lit_close(), Seq::<u8>::empty());
                        assert(false);
                    }
                }
            }
            return None;
        },
    };
    if p10 != bytes.len() {
        proof {
            assert forall|v: Settings| !is_settings_encoding(bytes@, v) by {
                if is_settings_encoding(bytes@, v) {
                    assert(lit_close() + Seq::<u8>::empty() =~= lit_close());
                    lemma_skip_decompose(bytes@, p9 as int, lit_close(), Seq::<u8>::empty());
                    assert(false);
                }
            }
        }
        return None;
    }
    Some((in0, out0))
}

/// Reads the canonical persisted form, optimistically: whenever the input
/// is the encoding of some settings, the call returns exactly those
/// settings. (What it returns on any other input is screened by the caller,
/// which re-encodes the result and compares.)
#[verifier::spinoff_prover]
fn loose_parse(bytes: &Vec<u8>) -> (r: Option<Settings>)
    ensures
        r matches Some(w) ==> w.update_status is None,
        forall|v: Settings| #[trigger] is_settings_encoding(bytes@, v) ==> r == Some(v),
{
    let (auto0, p1) = match parse_open_auto(bytes) {
        Some(h) => h,
        None => {
            return None;
        },
    };
    let (buf0, rate0, p6) = match parse_middle_fields(bytes, p1) {
        Some(h) => h,
        None => {
            return None;
        },
    };
    let (in0, out0) = match parse_selections(bytes, p6) {
        Some(h) => h,
        None => {
            return None;
        },
    };
    let w = Settings {
        auto_update: auto0,
        buffer_size: buf0,
        sample_rate: rate0,
        update_status: None,
        selected_input_device: in0,
        selected_output_device: out0,
    };
    proof {
        assert forall|v: Settings| #[trigger] is_settings_encoding(bytes@, v) implies Some(w)
            == Some(v) by {
            assert(v.update_status is None);
        }
    }
    Some(w)
}

/// The exec form of the closing brace.
fn exec_lit_close() -> (r: Vec<u8>)
    ensures
        r@ == lit_close(),
{
    let mut v: Vec<u8> = Vec::new();
    v.push(125);
    proof {
        assert(v@ =~= lit_close());
    }
    v
}

impl Settings {
    /// Writes the canonical persisted form of this state. The transient
    /// update status is not persisted.
    pub fn to_json(&self) -> (r: Vec<u8>)
        ensures
            r@ == settings_json(
                self.auto_update,
                self.buffer_size,
                self.sample_rate,
                self.selected_input_device,
                self.selected_output_device,
            ),
    {
        let ghost k1 = key_auto();
        let ghost bv = json_bool(self.auto_update);
        let ghost k2 = key_buffer();
        let ghost d1 = dec_digits(self.buffer_size as nat);
        let ghost k3 = key_rate();
        let ghost d2 = dec_digits(self.sample_rate as nat);
        let ghost k4 = key_input();
        let ghost j1 = json_opt_index(self.selected_input_device);
        let ghost k5 = key_output();
        let ghost j2 = json_opt_index(self.selected_output_device);
        let ghost cl = lit_close();
        let mut out: Vec<u8> = Vec::new();
        let mut part = exec_key_auto();
        out.append(&mut part);
        proof {
            assert(out@ =~= k1);
        }
        let mut part = if self.auto_update {
            exec_lit_true()
        } else {
            exec_lit_false()
        };
        out.append(&mut part);
        proof {
            assert(out@ == k1 + bv);
        }
        let mut part = exec_key_buffer();
        out.append(&mut part);
        push_dec_u64(&mut out, self.buffer_size as u64);
        proof {
            assert((self.buffer_size as u64) as nat == self.buffer_size as nat);
            assert(out@ == k1 + bv + k2 + d1);
        }
        let mut part = exec_key_rate();
        out.append(&mut part);
        push_dec_u64(&mut out, self.sample_rate as u64);
        proof {
            assert((self.sample_rate as u64) as nat == self.sample_rate as nat);
            assert(out@ == k1 + bv + k2 + d1 + k3 + d2);
        }
        let mut part = exec_key_input();
        out.append(&mut part);
        match self.selected_input_device {
            Some(n) => {
                push_dec_u64(&mut out, n as u64);
                proof {
                    assert((n as u64) as nat == n as nat);
                }
            },
            None => {
                let mut part = exec_lit_null();
                out.append(&mut part);
            },
        }
        proof {
            assert(out@ == k1 + bv + k2 + d1 + k3 + d2 + k4 + j1);
        }
        let mut part = exec_key_output();
        out.append(&mut part);
        match self.selected_output_device {
            Some(n) => {
                push_dec_u64(&mut out, n as u64);
                proof {
                    assert((n as u64) as nat == n as nat);
                }
            },
            None => {
                let mut part = exec_lit_null();
                out.append(&mut part);
            },
        }
        proof {
            assert(out@ == k1 + bv + k2 + d1 + k3 + d2 + k4 + j1 + k5 + j2);
        }
        out.push(125);
        proof {
            assert(out@ =~= k1 + bv + k2 + d1 + k3 + d2 + k4 + j1 + k5 + j2 + cl);
            crate::encoding::lemma_add_assoc(
                k1 + bv + k2 + d1 + k3 + d2 + k4 + j1 + k5,
                j2,
                cl,
            );
            crate::encoding::lemma_add_assoc(
                k1 + bv + k2 + d1 + k3 + d2 + k4 + j1,
                k5,
                j2 + cl,
            );
            crate::encoding::lemma_add_assoc(
                k1 + bv + k2 + d1 + k3 + d2 + k4,
                j1,
                k5 + (j2 + cl),
            );
            crate::encoding::lemma_add_assoc(
                k1 + bv + k2 + d1 + k3 + d2,
                k4,
                j1 + (k5 + (j2 + cl)),
            );
            crate::encoding::lemma_add_assoc(
                k1 + bv + k2 + d1 + k3,
                d2,
                k4 + (j1 + (k5 + (j2 + cl))),
            );
            crate::encoding::lemma_add_assoc(
                k1 + bv + k2 + d1,
                k3,
                d2 + (k4 + (j1 + (k5 + (j2 + cl)))),
            );
            crate::encoding::lemma_add_assoc(
                k1 + bv + k2,
                d1,
                k3 + (d2 + (k4 + (j1 + (k5 + (j2 + cl))))),
            );
            crate::encoding::lemma_add_assoc(
                k1 + bv,
                k2,
                d1 + (k3 + (d2 + (k4 + (j1 + (k5 + (j2 + cl))))))
            );
            crate::encoding::lemma_add_assoc(
                k1,
                bv,
                k2 + (d1 + (k3 + (d2 + (k4 + (j1 + (k5 + (j2 + cl)))))))
            );
            assert(out@ == settings_json(
                self.auto_update,
                self.buffer_size,
                self.sample_rate,
                self.selected_input_device,
                self.selected_output_device,
            ));
        }
        out
    }

    /// Reads the canonical persisted form: exactly the settings the input
    /// encodes, or `None` when the input encodes none.
    pub fn from_json(bytes: &Vec<u8>) -> (r: Option<Settings>)
        ensures
            (match r {
                Some(v) => is_settings_encoding(bytes@, v),
                None => forall|v: Settings| !is_settings_encoding(bytes@, v),
            }),
            forall|v: Settings| #[trigger] is_settings_encoding(bytes@, v) ==> r == Some(v),
    {
        match loose_parse(bytes) {
            None => None,
            Some(w) => {
                let canon = w.to_json();
                if eq_bytes(bytes, &canon) {
                    Some(w)
                } else {
                    proof {
                        assert forall|v: Settings| !is_settings_encoding(bytes@, v) by {
                            if is_settings_encoding(bytes@, v) {
                                assert(w == v);
                                assert(false);
                            }
                        }
                    }
                    None
                }
            },
        }
    }

    /// Reads persisted preferences: the settings a canonical file encodes,
    /// and the documented defaults for a missing or unparsable one —
    /// corruption never raises to the caller.
    pub fn load(contents: Option<&Vec<u8>>) -> (r: Settings)
        ensures
            match contents {
                Some(bytes) => {
                    &&& forall|v: Settings| #[trigger] is_settings_encoding(bytes@, v) ==> r == v
                    &&& ((forall|v: Settings| !is_settings_encoding(bytes@, v)) ==> r
                        == crate::interface::settings::spec_default_settings())
                },
                None => r == crate::interface::settings::spec_default_settings(),
            },
    {
        match contents {
            Some(bytes) => match Settings::from_json(bytes) {
                Some(s) => s,
                None => Settings::default(),
            },
            None => Settings::default(),
        }
    }
}

/// Law: writing a selection state to its persisted form and reading that
/// form back yields the same persisted tuple (buffer size, sample rate,
/// auto-update flag, and the two device selections). Together with the
/// contract of [`Settings::from_json`], which returns exactly the settings
/// whose encoding it was given, this pins the save-then-load round trip.
pub proof fn lemma_settings_round_trip(v: Settings)
    requires
        v.update_status is None,
    ensures
        is_settings_encoding(
            settings_json(
                v.auto_update,
                v.buffer_size,
                v.sample_rate,
                v.selected_input_device,
                v.selected_output_device,
            ),
            v,
        ),
{
}

} // verus!
