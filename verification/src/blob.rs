//! Page blobs and the keys that name them, as the `bytes` and `parquet` crates
//! provide them.
use bytes::Bytes;
use parquet::arrow::arrow_writer::PageKey;
use vstd::prelude::*;

verus! {

/// Makes `bytes::Bytes`, a cheaply cloneable byte buffer, known to the verifier.
/// Nothing is said of what is inside; [`blob`] names its contents.
#[verifier::external_type_specification]
#[verifier::external_body]
pub struct ExBytes(bytes::Bytes);

/// The contents of a `Bytes`: the bytes that it dereferences to, in order.
pub uninterp spec fn blob(bytes: Bytes) -> Seq<u8>;

/// `bytes::Bytes::len` is taken to return the number of bytes in the contents.
pub assume_specification[ Bytes::len ](bytes: &Bytes) -> (n: usize)
    ensures
        n == blob(*bytes).len(),
;

/// `bytes::Bytes::from(Vec<u8>)` is taken to hold the vector's bytes, unchanged
/// and in order.
pub assume_specification[ <Bytes as From<Vec<u8>>>::from ](vec: Vec<u8>) -> (bytes: Bytes)
    ensures
        blob(bytes) == vec@,
;

/// Makes `parquet`'s `PageKey`, the handle to a stored page, known to the
/// verifier. Nothing is said of what is inside; [`key_number`] names its value.
#[verifier::external_type_specification]
#[verifier::external_body]
pub struct ExPageKey(PageKey);

/// The raw value that a `PageKey` wraps.
pub uninterp spec fn key_number(key: PageKey) -> u64;

/// `PageKey::new` is taken to wrap the value that it is given.
pub assume_specification[ PageKey::new ](raw: u64) -> (key: PageKey)
    ensures
        key_number(key) == raw,
;

/// `PageKey::get` is taken to return the value that the key wraps.
pub assume_specification[ PageKey::get ](key: PageKey) -> (raw: u64)
    ensures
        raw == key_number(key),
;

} // verus!
