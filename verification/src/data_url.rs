//! Images as they arrive from the user interface: PNG data URLs.
//!
//! A data URL is the fixed prefix `data:image/png;base64,` followed by the
//! base64 text of the image.

use vstd::prelude::*;
use vstd::slice::slice_subrange;
use vstd::string::StringSliceAdditionalSpecFns;
use crate::base64::{decode, encode, encoding_is_injective};

verus! {

/// Number of bytes in the prefix.
pub const DATA_URL_PREFIX_LEN: usize = 22;

/// The bytes of `data:image/png;base64,`.
pub open spec fn data_url_prefix() -> Seq<u8> {
    seq![
        100u8, 97u8, 116u8, 97u8, 58u8,
        105u8, 109u8, 97u8, 103u8, 101u8, 47u8,
        112u8, 110u8, 103u8, 59u8,
        98u8, 97u8, 115u8, 101u8, 54u8, 52u8, 44u8,
    ]
}

/// Why a data URL yields no image.
#[derive(Clone, Copy, Debug, PartialEq, Eq, Structural)]
pub enum EncodingError {
    /// The text does not begin with `data:image/png;base64,`.
    MissingPrefix,
    /// What follows the prefix is the base64 text of nothing.
    MalformedBase64,
}

/// `url` is the data URL of `image`.
pub open spec fn is_data_url_of(url: Seq<u8>, image: Seq<u8>) -> bool {
    url == data_url_prefix() + encode(image)
}

/// What is wrong with `url`, if anything.
pub open spec fn data_url_error(url: Seq<u8>) -> Option<EncodingError> {
    if !data_url_prefix().is_prefix_of(url) {
        Some(EncodingError::MissingPrefix)
    } else if forall|image: Seq<u8>| #[trigger] encode(image) != url.skip(DATA_URL_PREFIX_LEN as int) {
        Some(EncodingError::MalformedBase64)
    } else {
        None
    }
}

/// Nothing is wrong with the data URL of an image.
pub proof fn lemma_data_url_is_sound(url: Seq<u8>, image: Seq<u8>)
    requires
        is_data_url_of(url, image),
    ensures
        data_url_error(url) is None,
{
    assert(url.subrange(0, DATA_URL_PREFIX_LEN as int) =~= data_url_prefix());
    assert(url.skip(DATA_URL_PREFIX_LEN as int) =~= encode(image));
}

/// A data URL is the data URL of one image only.
pub proof fn data_url_holds_one_image(url: Seq<u8>, image: Seq<u8>, other: Seq<u8>)
    requires
        is_data_url_of(url, image),
        is_data_url_of(url, other),
    ensures
        image == other,
{
    assert(encode(image) =~= url.skip(DATA_URL_PREFIX_LEN as int));
    assert(encode(other) =~= url.skip(DATA_URL_PREFIX_LEN as int));
    encoding_is_injective(image, other);
}

/// Takes the prefix off a data URL and decodes the image behind it.
pub fn strip_data_url_prefix(url: &str) -> (result: Result<Vec<u8>, EncodingError>)
    ensures
        match result {
            Ok(image) => is_data_url_of(url.spec_bytes(), image@),
            Err(e) => data_url_error(url.spec_bytes()) == Some(e),
        },
{
    let bytes = url.as_bytes();
    let prefix: [u8; 22] = [
        100, 97, 116, 97, 58,
        105, 109, 97, 103, 101, 47,
        112, 110, 103, 59,
        98, 97, 115, 101, 54, 52, 44,
    ];
    assert(prefix@ =~= data_url_prefix());
    if bytes.len() < DATA_URL_PREFIX_LEN {
        return Err(EncodingError::MissingPrefix);
    }
    let mut i: usize = 0;
    while i < DATA_URL_PREFIX_LEN
        invariant
            i <= DATA_URL_PREFIX_LEN <= bytes@.len(),
            bytes@ == url.spec_bytes(),
            prefix@ == data_url_prefix(),
            data_url_prefix().len() == DATA_URL_PREFIX_LEN,
            forall|j: int| 0 <= j < i ==> bytes@[j] == prefix@[j],
        decreases DATA_URL_PREFIX_LEN - i,
    {
        if bytes[i] != prefix[i] {
            assert(bytes@.subrange(0, DATA_URL_PREFIX_LEN as int)[i as int] != data_url_prefix()[i as int]);
            return Err(EncodingError::MissingPrefix);
        }
        i += 1;
    }
    assert(bytes@.subrange(0, DATA_URL_PREFIX_LEN as int) =~= data_url_prefix());
    let text = slice_subrange(bytes, DATA_URL_PREFIX_LEN, bytes.len());
    assert(text@ =~= bytes@.skip(DATA_URL_PREFIX_LEN as int));
    match decode(text) {
        Some(image) => {
            assert(bytes@ =~= data_url_prefix() + encode(image@));
            Ok(image)
        },
        None => Err(EncodingError::MalformedBase64),
    }
}

} // verus!
