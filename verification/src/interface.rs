//! The state behind the application's settings surface. The windowed
//! presentation itself lives outside the library.

pub mod settings;
