//! Length-prefixed and unprefixed wire encodings for text and integer
//! sequences, with an explicit choice of the prefix width.
mod bytes;
mod error;
mod le;
mod prefix_string;
mod prefix_vec;
mod remainder_str;
mod width;

pub use error::{Error, ErrorKind};
pub use le::{fits, le_bytes, le_value, pow256};
pub use prefix_string::{
    decode_text, encode_text, lemma_text_round_trip, text_from_slice, PrefixString,
    U16PrefixString, U64PrefixString, U8PrefixString,
};
pub use prefix_vec::{
    decode_seq, elem_at, encode_elems, encode_seq, lemma_seq_round_trip,
    lemma_short_input_rejected, seq_from_slice, PrefixVec, U16PrefixVec, U32PrefixVec,
    U64PrefixVec, U8PrefixVec,
};
pub use remainder_str::{chars_of_bytes, lemma_remainder_ascii_round_trip, RemainderStr};
pub use width::{read_prefix, FixedUint};
