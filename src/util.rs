pub use crate::decimal::bytes_to_usize;
