//! Source descriptors: `type:payload` strings that name a remote source.

use crate::error::{Malformation, SyncError};
use crate::text::{
    chars_of, find_first, first_index, is_first_index, lemma_first_index_unique,
    lemma_has_first_index, same_text,
};
use std::string::FromUtf8Error;
use vstd::prelude::*;
use vstd::string::*;
use vstd::utf8::{decode_utf8, valid_utf8};

verus! {

/// The error of the standard library's UTF-8 decoding, opaque here.
#[verifier::external_type_specification]
#[verifier::external_body]
pub struct ExFromUtf8Error(FromUtf8Error);

/// Calls `String::from_utf8` on a copy of `bytes`. As its documentation
/// says, it fails exactly where the bytes are no valid UTF-8, and else gives
/// the string that these bytes encode.
#[verifier::external_body]
fn text_of(bytes: &Vec<u8>) -> (r: Result<String, FromUtf8Error>)
    ensures
        match r {
            Ok(text) => valid_utf8(bytes@) && text@ == decode_utf8(bytes@),
            Err(_) => !valid_utf8(bytes@),
        },
{
    String::from_utf8(bytes.clone())
}

/// A source descriptor, split into its source type and its payload.
#[derive(Clone, Debug)]
pub struct Descriptor {
    pub kind: String,
    pub payload: String,
}

/// The mathematical value of a [`Descriptor`].
pub struct DescriptorView {
    pub kind: Seq<char>,
    pub payload: Seq<char>,
}

impl DescriptorView {
    /// The canonical string form: source type, `:`, payload. Two descriptors
    /// are the same source exactly when their canonical forms are equal.
    pub open spec fn canonical(self) -> Seq<char> {
        self.kind + seq![':'] + self.payload
    }
}

impl View for Descriptor {
    type V = DescriptorView;

    open spec fn view(&self) -> DescriptorView {
        DescriptorView { kind: self.kind@, payload: self.payload@ }
    }
}

/// The fully qualified descriptor that a shorthand stands for; any other text
/// stands for itself.
pub open spec fn expand_alias(raw: Seq<char>) -> Seq<char> {
    if raw == "neversink-lite"@ {
        "github:NeverSinkDev/NeverSink-PoE2litefilter"@
    } else if raw == "cdrg"@ {
        "github:cdrg/cdr-poe2filter"@
    } else {
        raw
    }
}

/// The descriptor that `text` splits into at its first `:`, if it has one.
pub open spec fn split_descriptor(text: Seq<char>) -> Option<DescriptorView> {
    if text.contains(':') {
        let i = first_index(text, ':');
        Some(
            DescriptorView {
                kind: text.subrange(0, i),
                payload: text.subrange(i + 1, text.len() as int),
            },
        )
    } else {
        None
    }
}

/// What user input `raw` parses to: aliases are expanded first, then the text
/// is split at its first `:`.
pub open spec fn parsed(raw: Seq<char>) -> Option<DescriptorView> {
    split_descriptor(expand_alias(raw))
}

/// What a command-line argument parses to: it must be valid UTF-8, and its
/// text must parse.
pub open spec fn parsed_argument(raw: Seq<u8>) -> Result<DescriptorView, SyncError> {
    if !valid_utf8(raw) {
        Err(SyncError::MalformedDescriptor(Malformation::InvalidText))
    } else {
        match parsed(decode_utf8(raw)) {
            Some(d) => Ok(d),
            None => Err(SyncError::MalformedDescriptor(Malformation::MissingSeparator)),
        }
    }
}

/// Expands a known shorthand to its fully qualified descriptor.
pub fn expand(raw: &str) -> (text: String)
    ensures
        text@ == expand_alias(raw@),
{
    if same_text(raw, "neversink-lite") {
        String::from_str("github:NeverSinkDev/NeverSink-PoE2litefilter")
    } else if same_text(raw, "cdrg") {
        String::from_str("github:cdrg/cdr-poe2filter")
    } else {
        String::from_str(raw)
    }
}

/// Parses user input into a descriptor. Input without a `:` (after alias
/// expansion) is rejected; a later `:` belongs to the payload. The payload is
/// not inspected here.
pub fn parse(raw: &str) -> (r: Result<Descriptor, SyncError>)
    ensures
        match r {
            Ok(d) => parsed(raw@) == Some(d@) && !d@.kind.contains(':') && d@.canonical()
                == expand_alias(raw@),
            Err(e) => parsed(raw@) is None && !expand_alias(raw@).contains(':') && e
                == SyncError::MalformedDescriptor(Malformation::MissingSeparator),
        },
{
    let text: String = expand(raw);
    let chars = chars_of(text.as_str());
    let n: usize = chars.len();
    match find_first(&chars, ':') {
        None => Err(SyncError::MalformedDescriptor(Malformation::MissingSeparator)),
        Some(i) => {
            let kind: String = text.as_str().substring_char(0, i).to_owned();
            let payload: String = text.as_str().substring_char(i + 1, n).to_owned();
            let d = Descriptor { kind, payload };
            proof {
                lemma_split_descriptor(text@, i as int);
            }
            Ok(d)
        },
    }
}

/// Parses a command-line argument into a descriptor. Bytes that are no valid
/// UTF-8 are rejected; valid ones are parsed as their text.
pub fn parse_argument(raw: &Vec<u8>) -> (r: Result<Descriptor, SyncError>)
    ensures
        match r {
            Ok(d) => parsed_argument(raw@) == Ok::<DescriptorView, SyncError>(d@),
            Err(e) => parsed_argument(raw@) == Err::<DescriptorView, SyncError>(e),
        },
{
    match text_of(raw) {
        Ok(text) => parse(text.as_str()),
        Err(_) => Err(SyncError::MalformedDescriptor(Malformation::InvalidText)),
    }
}

impl Descriptor {
    /// Whether two descriptors name the same source: whether their canonical
    /// forms are equal.
    pub fn same_source(&self, other: &Descriptor) -> (r: bool)
        ensures
            r == (self@.canonical() == other@.canonical()),
    {
        let mine: String = self.canonical();
        let theirs: String = other.canonical();
        mine == theirs
    }

    /// The canonical string form, which keys the watermark store.
    pub fn canonical(&self) -> (text: String)
        ensures
            text@ == self@.canonical(),
    {
        proof {
            reveal_strlit(":");
        }
        let mut text: String = self.kind.clone();
        text.append(":");
        text.append(self.payload.as_str());
        assert(":"@ =~= seq![':']);
        text
    }
}

/// Splitting at the first `:` gives a type without `:`, and gluing the parts
/// back with `:` gives the text again.
pub proof fn lemma_split_descriptor(text: Seq<char>, i: int)
    requires
        is_first_index(text, ':', i),
    ensures
        split_descriptor(text) == Some(
            DescriptorView {
                kind: text.subrange(0, i),
                payload: text.subrange(i + 1, text.len() as int),
            },
        ),
        !text.subrange(0, i).contains(':'),
        text.subrange(0, i) + seq![':'] + text.subrange(i + 1, text.len() as int) == text,
{
    lemma_first_index_unique(text, ':', i);
    assert(text.subrange(0, i) + seq![':'] + text.subrange(i + 1, text.len() as int) =~= text);
    let kind = text.subrange(0, i);
    if kind.contains(':') {
        let j = choose|j: int| 0 <= j < kind.len() && kind[j] == ':';
        assert(text[j] == ':');
    }
}

/// Descriptors whose source types hold no `:`, as every parsed one's does,
/// have equal canonical forms only when they are equal part by part.
pub proof fn canonical_form_identifies(a: DescriptorView, b: DescriptorView)
    requires
        !a.kind.contains(':'),
        !b.kind.contains(':'),
        a.canonical() == b.canonical(),
    ensures
        a == b,
{
    let text = a.canonical();
    let i = a.kind.len() as int;
    let j = b.kind.len() as int;
    assert(text[i] == ':');
    assert(b.canonical()[j] == ':');
    if i < j {
        assert(b.kind[i] == b.canonical()[i]);
        assert(b.kind.contains(':'));
    } else if j < i {
        assert(a.kind[j] == a.canonical()[j]);
        assert(a.kind.contains(':'));
    }
    assert(a.kind =~= text.subrange(0, i));
    assert(b.kind =~= text.subrange(0, j));
    assert(a.payload =~= text.subrange(i + 1, text.len() as int));
    assert(b.payload =~= text.subrange(j + 1, text.len() as int));
}

/// Expanding an alias twice is the same as expanding it once: no fully
/// qualified form is itself a shorthand.
pub proof fn lemma_expand_idempotent(raw: Seq<char>)
    ensures
        expand_alias(expand_alias(raw)) == expand_alias(raw),
{
    reveal_strlit("neversink-lite");
    reveal_strlit("cdrg");
    reveal_strlit("github:NeverSinkDev/NeverSink-PoE2litefilter");
    reveal_strlit("github:cdrg/cdr-poe2filter");
    let long = "github:NeverSinkDev/NeverSink-PoE2litefilter"@;
    let short = "github:cdrg/cdr-poe2filter"@;
    assert(long.len() != "neversink-lite"@.len());
    assert(long.len() != "cdrg"@.len());
    assert(short.len() != "neversink-lite"@.len());
    assert(short.len() != "cdrg"@.len());
}

/// Alias expansion: a shorthand parses to the very descriptor that its fully
/// qualified form parses to, and the canonical form of what any input parses
/// to is the expanded text, never the shorthand.
pub proof fn alias_parses_as_canonical(raw: Seq<char>)
    ensures
        parsed(raw) == parsed(expand_alias(raw)),
        parsed(raw) matches Some(d) ==> d.canonical() == expand_alias(raw),
        parsed("neversink-lite"@) == parsed("github:NeverSinkDev/NeverSink-PoE2litefilter"@),
        parsed("cdrg"@) == parsed("github:cdrg/cdr-poe2filter"@),
{
    reveal_strlit("neversink-lite");
    reveal_strlit("cdrg");
    assert("cdrg"@.len() != "neversink-lite"@.len());
    lemma_expand_idempotent(raw);
    lemma_expand_idempotent("neversink-lite"@);
    lemma_expand_idempotent("cdrg"@);
    let text = expand_alias(raw);
    if text.contains(':') {
        let j = choose|j: int| 0 <= j < text.len() && text[j] == ':';
        lemma_has_first_index(text, ':', j);
        lemma_split_descriptor(text, first_index(text, ':'));
    }
}

} // verus!
