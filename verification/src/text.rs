//! Length-bounded UTF-8 strings and the three-tier text value.
//!
//! IPP limits string values by their UTF-8 byte length, with the bound
//! depending on where the value stands. [`BoundedString`] carries the bound
//! in its type and checks it at construction; [`IppTextValue`] selects the
//! narrowest of the three text tiers for its input.

use vstd::prelude::*;
use vstd::utf8::{decode_utf8, encode_utf8, valid_utf8};

use crate::error::IppParseError;

verus! {

/// The characters that `String::from_utf8_lossy` yields for input that is
/// not valid UTF-8. For valid input the codec never relies on this name:
/// see [`lossy_decode`].
pub uninterp spec fn lossy_decoded(bytes: Seq<u8>) -> Seq<char>;

/// The characters a byte sequence decodes to, with invalid sequences
/// replaced: valid UTF-8 decodes exactly, anything else is whatever
/// replacement the lossy decoder makes of it.
pub open spec fn lossy_decode(bytes: Seq<u8>) -> Seq<char> {
    if valid_utf8(bytes) {
        decode_utf8(bytes)
    } else {
        lossy_decoded(bytes)
    }
}

/// Relies on `String::from_utf8_lossy`: valid UTF-8 input is decoded
/// unchanged (so its encoding is the input again), and the result is a
/// function of the input bytes alone.
#[verifier::external_body]
pub(crate) fn utf8_lossy_to_string(bytes: &[u8]) -> (r: String)
    ensures
        r@ == lossy_decode(bytes@),
        !valid_utf8(bytes@) ==> r@ == lossy_decoded(bytes@),
{
    String::from_utf8_lossy(bytes).into_owned()
}

/// A UTF-8 string whose length in encoded bytes is at most `MAX`.
///
/// The bound is part of the type: widening with [`BoundedString::expand`]
/// is infallible, narrowing with [`BoundedString::shrink`] can fail.
#[derive(Debug)]
pub struct BoundedString<const MAX: u16> {
    inner: String,
}

pub type IppString = BoundedString<1023>;

pub type IppShortString = BoundedString<127>;

pub type IppKeyword = BoundedString<255>;

pub type IppMimeMediaType = BoundedString<255>;

pub type IppCharset = BoundedString<63>;

pub type IppLanguage = BoundedString<63>;

pub type IppName = BoundedString<255>;

impl<const MAX: u16> View for BoundedString<MAX> {
    type V = Seq<char>;

    closed spec fn view(&self) -> Seq<char> {
        self.inner@
    }
}

impl<const MAX: u16> BoundedString<MAX> {
    /// Every bounded string holds at most `MAX` bytes once UTF-8 encoded.
    #[verifier::type_invariant]
    closed spec fn inv(self) -> bool {
        encode_utf8(self.inner@).len() <= MAX as int
    }

    /// Build a bounded string, rejecting input whose UTF-8 byte length
    /// exceeds `MAX`.
    pub fn new(s: &str) -> (r: Result<BoundedString<MAX>, IppParseError>)
        ensures
            match r {
                Ok(b) => b@ == s@ && encode_utf8(s@).len() <= MAX as int,
                Err(e) => encode_utf8(s@).len() > MAX as int && e
                    == (IppParseError::InvalidStringLength {
                    len: encode_utf8(s@).len() as usize,
                    max: MAX,
                }),
            },
    {
        let len = s.as_bytes().len();
        if len > MAX as usize {
            Err(IppParseError::InvalidStringLength { len, max: MAX })
        } else {
            Ok(BoundedString { inner: s.to_owned() })
        }
    }

    /// The bound of this type, in bytes.
    pub fn max() -> (r: u16)
        ensures
            r == MAX,
    {
        MAX
    }

    /// Borrow the string.
    pub fn as_str(&self) -> (r: &str)
        ensures
            r@ == self@,
            encode_utf8(self@).len() <= MAX as int,
    {
        proof {
            use_type_invariant(self);
        }
        self.inner.as_str()
    }

    /// Take the string out.
    pub fn into_inner(self) -> (r: String)
        ensures
            r@ == self@,
            encode_utf8(self@).len() <= MAX as int,
    {
        proof {
            use_type_invariant(&self);
        }
        let BoundedString { inner } = self;
        inner
    }

    /// The length in UTF-8 bytes; never more than `MAX`.
    pub fn len(&self) -> (r: usize)
        ensures
            r == encode_utf8(self@).len(),
            r <= MAX,
    {
        proof {
            use_type_invariant(self);
        }
        self.inner.as_str().as_bytes().len()
    }

    /// Whether the string is empty.
    pub fn is_empty(&self) -> (r: bool)
        ensures
            r == (self@.len() == 0),
    {
        self.inner.as_str().is_empty()
    }

    /// Widen the bound; infallible because every string within `MAX` bytes
    /// is within `MAX2` bytes.
    pub fn expand<const MAX2: u16>(self) -> (r: BoundedString<MAX2>)
        requires
            MAX <= MAX2,
        ensures
            r@ == self@,
    {
        proof {
            use_type_invariant(&self);
        }
        let BoundedString { inner } = self;
        BoundedString { inner }
    }

    /// Narrow the bound, rejecting a string that does not fit.
    pub fn shrink<const MAX2: u16>(self) -> (r: Result<BoundedString<MAX2>, IppParseError>)
        ensures
            match r {
                Ok(b) => b@ == self@ && encode_utf8(self@).len() <= MAX2 as int,
                Err(e) => encode_utf8(self@).len() > MAX2 as int && e
                    == (IppParseError::InvalidStringLength {
                    len: encode_utf8(self@).len() as usize,
                    max: MAX2,
                }),
            },
    {
        proof {
            use_type_invariant(&self);
        }
        let len = self.len();
        if len > MAX2 as usize {
            Err(IppParseError::InvalidStringLength { len, max: MAX2 })
        } else {
            let BoundedString { inner } = self;
            Ok(BoundedString { inner })
        }
    }
}

impl<const MAX: u16> Clone for BoundedString<MAX> {
    /// The clone views the same characters.
    fn clone(&self) -> (r: Self)
        ensures
            r@ == self@,
    {
        proof {
            use_type_invariant(self);
        }
        BoundedString { inner: self.inner.clone() }
    }
}

impl<const MAX: u16> PartialEq for BoundedString<MAX> {
    fn eq(&self, other: &Self) -> (r: bool) {
        self.inner == other.inner
    }
}

impl<const MAX: u16> Eq for BoundedString<MAX> {

}

impl<const MAX: u16> vstd::std_specs::cmp::PartialEqSpecImpl for BoundedString<MAX> {
    open spec fn obeys_eq_spec() -> bool {
        true
    }

    open spec fn eq_spec(&self, other: &Self) -> bool {
        self@ == other@
    }
}

/// The byte form of any character sequence is valid UTF-8; in particular
/// every bounded string and text value serializes to valid UTF-8.
pub proof fn lemma_encoded_bytes_valid(s: Seq<char>)
    ensures
        valid_utf8(encode_utf8(s)),
{
    broadcast use vstd::utf8::encode_utf8_valid_utf8;

}

/// Each character encodes to at most four bytes.
pub proof fn lemma_encode_len_bound(s: Seq<char>)
    ensures
        encode_utf8(s).len() <= 4 * s.len(),
    decreases s.len(),
{
    if s.len() > 0 {
        lemma_encode_len_bound(s.drop_first());
        assert(vstd::utf8::encode_scalar(s[0] as u32).len() <= 4);
    }
}

/// Each character encodes to at least one byte.
pub proof fn lemma_encode_len_min(s: Seq<char>)
    ensures
        encode_utf8(s).len() >= s.len(),
    decreases s.len(),
{
    if s.len() > 0 {
        lemma_encode_len_min(s.drop_first());
        assert(vstd::utf8::encode_scalar(s[0] as u32).len() >= 1);
    }
}

/// UTF-8 encoding is injective: equal byte forms mean equal strings.
pub proof fn lemma_encode_utf8_injective(a: Seq<char>, b: Seq<char>)
    requires
        encode_utf8(a) == encode_utf8(b),
    ensures
        a == b,
{
    broadcast use vstd::utf8::encode_utf8_decode_utf8;

    assert(decode_utf8(encode_utf8(a)) == a);
    assert(decode_utf8(encode_utf8(b)) == b);
}

/// Compare two strings by their bytes; equal bytes mean equal character
/// sequences and the other way round.
pub fn str_eq(a: &str, b: &str) -> (r: bool)
    ensures
        r == (a@ == b@),
{
    let ab = a.as_bytes();
    let bb = b.as_bytes();
    if ab.len() != bb.len() {
        proof {
            assert(encode_utf8(a@).len() != encode_utf8(b@).len());
        }
        return false;
    }
    let n = ab.len();
    for i in 0..n
        invariant
            n == ab@.len() == bb@.len(),
            ab@ == encode_utf8(a@),
            bb@ == encode_utf8(b@),
            forall|j: int| 0 <= j < i ==> ab@[j] == bb@[j],
        decreases n - i,
    {
        if ab[i] != bb[i] {
            proof {
                assert(encode_utf8(a@)[i as int] != encode_utf8(b@)[i as int]);
            }
            return false;
        }
    }
    proof {
        assert(ab@ =~= bb@);
        lemma_encode_utf8_injective(a@, b@);
    }
    true
}

/// An IPP `text(*)` value in the narrowest of the three length tiers
/// (127, 255 or 1023 bytes) that holds it.
#[derive(Debug, PartialEq, Eq)]
pub enum IppTextValue {
    Short(BoundedString<127>),
    Medium(BoundedString<255>),
    Long(BoundedString<1023>),
}

impl View for IppTextValue {
    type V = Seq<char>;

    open spec fn view(&self) -> Seq<char> {
        match self {
            IppTextValue::Short(s) => s@,
            IppTextValue::Medium(s) => s@,
            IppTextValue::Long(s) => s@,
        }
    }
}

impl Clone for IppTextValue {
    /// The clone views the same characters and keeps the tier.
    fn clone(&self) -> (r: Self)
        ensures
            r@ == self@,
            r.tier_canonical() == self.tier_canonical(),
    {
        match self {
            IppTextValue::Short(s) => IppTextValue::Short(s.clone()),
            IppTextValue::Medium(s) => IppTextValue::Medium(s.clone()),
            IppTextValue::Long(s) => IppTextValue::Long(s.clone()),
        }
    }
}

impl IppTextValue {
    /// Whether the tier is the narrowest that holds the text; construction
    /// through [`IppTextValue::new`] always yields this form.
    pub open spec fn tier_canonical(self) -> bool {
        match self {
            IppTextValue::Short(_) => true,
            IppTextValue::Medium(s) => encode_utf8(s@).len() > 127,
            IppTextValue::Long(s) => encode_utf8(s@).len() > 255,
        }
    }

    /// Build a text value in the narrowest fitting tier; input over 1023
    /// UTF-8 bytes is rejected.
    pub fn new(s: &str) -> (r: Result<IppTextValue, IppParseError>)
        ensures
            match r {
                Ok(t) => t@ == s@ && encode_utf8(s@).len() <= 1023 && t.tier_canonical(),
                Err(e) => encode_utf8(s@).len() > 1023 && e
                    == (IppParseError::InvalidStringLength {
                    len: encode_utf8(s@).len() as usize,
                    max: 1023,
                }),
            },
    {
        let len = s.as_bytes().len();
        if len <= 127 {
            match BoundedString::<127>::new(s) {
                Ok(b) => Ok(IppTextValue::Short(b)),
                Err(e) => Err(e),
            }
        } else if len <= 255 {
            match BoundedString::<255>::new(s) {
                Ok(b) => Ok(IppTextValue::Medium(b)),
                Err(e) => Err(e),
            }
        } else if len <= 1023 {
            match BoundedString::<1023>::new(s) {
                Ok(b) => Ok(IppTextValue::Long(b)),
                Err(e) => Err(e),
            }
        } else {
            Err(IppParseError::InvalidStringLength { len, max: 1023 })
        }
    }

    /// Borrow the text, whatever its tier.
    pub fn as_str(&self) -> (r: &str)
        ensures
            r@ == self@,
            encode_utf8(self@).len() <= 1023,
    {
        match self {
            IppTextValue::Short(s) => s.as_str(),
            IppTextValue::Medium(s) => s.as_str(),
            IppTextValue::Long(s) => s.as_str(),
        }
    }

    /// The length in UTF-8 bytes; never more than 1023.
    pub fn len(&self) -> (r: usize)
        ensures
            r == encode_utf8(self@).len(),
            r <= 1023,
    {
        match self {
            IppTextValue::Short(s) => s.len(),
            IppTextValue::Medium(s) => s.len(),
            IppTextValue::Long(s) => s.len(),
        }
    }

    /// Whether the text is empty.
    pub fn is_empty(&self) -> (r: bool)
        ensures
            r == (self@.len() == 0),
    {
        match self {
            IppTextValue::Short(s) => s.is_empty(),
            IppTextValue::Medium(s) => s.is_empty(),
            IppTextValue::Long(s) => s.is_empty(),
        }
    }
}

} // verus!
