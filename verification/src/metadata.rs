//! Request metadata as the user edits it: rows of key and value text, each
//! checked to be an ASCII entry or a binary (`-bin`) entry whose value is
//! base64.
use std::str::FromStr;

use base64::Engine;
use vstd::prelude::*;

use crate::format::base64_standard;

verus! {

/// What `tonic`'s `BinaryMetadataKey::from_str` makes of a key: the
/// normalized key name, or nothing when the key is refused.
pub uninterp spec fn tonic_binary_key(key: Seq<char>) -> Option<Seq<char>>;

/// What `tonic`'s `AsciiMetadataKey::from_str` makes of a key: the
/// normalized key name, or nothing when the key is refused.
pub uninterp spec fn tonic_ascii_key(key: Seq<char>) -> Option<Seq<char>>;

/// What decoding a text as standard base64, with or without padding, gives.
pub uninterp spec fn base64_decode_any_padding(text: Seq<char>) -> Option<Seq<u8>>;

/// A character that an HTTP header value may hold: a tab, or any character
/// from the space on except DEL.
pub open spec fn header_value_char(c: char) -> bool {
    c == '\t' || (c as u32 >= 32 && c as u32 != 127)
}

/// Every character of `s` may stand in a header value.
pub open spec fn header_value_text(s: Seq<char>) -> bool {
    forall|i: int| 0 <= i < s.len() ==> header_value_char(#[trigger] s[i])
}

/// The error text of a refused metadata key.
pub open spec fn invalid_key_message() -> Seq<char> {
    "invalid gRPC metadata key name"@
}

/// The error text of a refused ASCII metadata value.
pub open spec fn invalid_value_message() -> Seq<char> {
    "failed to parse metadata value"@
}

/// The error text of a binary value that is not base64.
pub open spec fn invalid_base64_message() -> Seq<char> {
    "invalid base64"@
}

/// Parses `key` with `tonic::metadata::BinaryMetadataKey::from_str` and gives
/// the normalized name. The contract claims that the result is the named
/// result of the key, and, as `tonic`'s `Binary::is_valid_key` shows, that an
/// accepted name ends in `-bin`.
#[verifier::external_body]
fn binary_key(key: &str) -> (res: Option<String>)
    ensures
        match res {
            Some(k) => tonic_binary_key(key@) == Some(k@),
            None => tonic_binary_key(key@) is None,
        },
        res matches Some(k) ==> k@.len() >= 4 && k@.subrange(k@.len() - 4, k@.len() as int)
            == "-bin"@,
{
    tonic::metadata::BinaryMetadataKey::from_str(key).ok().map(|k| k.as_str().to_owned())
}

/// Parses `key` with `tonic::metadata::AsciiMetadataKey::from_str` and gives
/// the normalized name, or the error's display text. The contract claims that
/// the outcome is the named result of the key, and that the error text is the
/// one `tonic`'s `InvalidMetadataKey` displays.
#[verifier::external_body]
fn ascii_key(key: &str) -> (res: Result<String, String>)
    ensures
        match res {
            Ok(k) => tonic_ascii_key(key@) == Some(k@),
            Err(e) => tonic_ascii_key(key@) is None && e@ == invalid_key_message(),
        },
{
    match tonic::metadata::AsciiMetadataKey::from_str(key) {
        Ok(k) => Ok(k.as_str().to_owned()),
        Err(err) => Err(err.to_string()),
    }
}

/// Checks `value` with `tonic`'s `AsciiMetadataValue::try_from`, which goes
/// through `http::HeaderValue::from_str`: that accepts exactly the texts whose
/// bytes are all a tab or at least 32 and not 127, that is the texts whose
/// characters all are (a character beyond ASCII is encoded in bytes of 128
/// and more). The error text is the one `tonic`'s `InvalidMetadataValue`
/// displays.
#[verifier::external_body]
fn ascii_value(value: &str) -> (res: Result<(), String>)
    ensures
        res is Ok <==> header_value_text(value@),
        res matches Err(e) ==> e@ == invalid_value_message(),
{
    match tonic::metadata::AsciiMetadataValue::try_from(value) {
        Ok(_) => Ok(()),
        Err(err) => Err(err.to_string()),
    }
}

/// Decodes `text` with a `base64` engine of the standard alphabet whose
/// decoding accepts padding or its absence (`DecodePaddingMode::Indifferent`).
/// The contract claims that the result is the named result of the text, and
/// that the standard padded encoding of any bytes decodes to those bytes.
#[verifier::external_body]
fn decode_base64(text: &str) -> (res: Option<Vec<u8>>)
    ensures
        match res {
            Some(b) => base64_decode_any_padding(text@) == Some(b@),
            None => base64_decode_any_padding(text@) is None,
        },
        match res {
            Some(b) => forall|data: Seq<u8>| #[trigger] base64_standard(data) == text@ ==> b@ == data,
            None => forall|data: Seq<u8>| #[trigger] base64_standard(data) != text@,
        },
{
    let engine = base64::engine::GeneralPurpose::new(
        &base64::alphabet::STANDARD,
        base64::engine::GeneralPurposeConfig::new()
            .with_encode_padding(true)
            .with_decode_padding_mode(base64::engine::DecodePaddingMode::Indifferent),
    );
    engine.decode(text).ok()
}

/// A metadata row as typed: its key and value text, and whether it is marked
/// for deletion.
#[derive(Debug, Clone)]
pub struct EditableEntry {
    pub key: String,
    pub value: String,
    pub deleted: bool,
}

impl EditableEntry {
    /// A copy of this row.
    pub fn duplicate(&self) -> (res: EditableEntry)
        ensures
            res == *self,
    {
        EditableEntry { key: self.key.clone(), value: self.value.clone(), deleted: self.deleted }
    }
}

/// A valid metadata entry: an ASCII key with its text value, or a binary key
/// with the bytes its base64 value stands for.
#[derive(Debug, Clone, PartialEq, Eq)]
pub enum ParsedEntry {
    Ascii { key: String, value: String },
    Binary { key: String, value: Vec<u8> },
}

/// A valid metadata entry as the contracts speak of it.
pub enum EntrySpec {
    Ascii { key: Seq<char>, text: Seq<char> },
    Binary { key: Seq<char>, bytes: Seq<u8> },
}

pub open spec fn entry_view(e: ParsedEntry) -> EntrySpec {
    match e {
        ParsedEntry::Ascii { key, value } => EntrySpec::Ascii { key: key@, text: value@ },
        ParsedEntry::Binary { key, value } => EntrySpec::Binary { key: key@, bytes: value@ },
    }
}

/// What a row of key and value text stands for: a key that `tonic` takes as
/// binary needs a base64 value; any other key must be a valid ASCII key with
/// a value fit for a header.
pub open spec fn spec_validate_entry(key: Seq<char>, value: Seq<char>) -> Result<EntrySpec, Seq<char>> {
    match tonic_binary_key(key) {
        Some(k) => match base64_decode_any_padding(value) {
            Some(bytes) => Ok(EntrySpec::Binary { key: k, bytes }),
            None => Err(invalid_base64_message()),
        },
        None => match tonic_ascii_key(key) {
            Some(k) => if header_value_text(value) {
                Ok(EntrySpec::Ascii { key: k, text: value })
            } else {
                Err(invalid_value_message())
            },
            None => Err(invalid_key_message()),
        },
    }
}

/// Checks one row; the error is the message shown beside it. A binary key
/// whose value is the standard base64 of some bytes gives an entry holding
/// those bytes.
pub fn validate_entry(raw: &EditableEntry) -> (res: Result<ParsedEntry, String>)
    ensures
        match res {
            Ok(p) => spec_validate_entry(raw.key@, raw.value@) == Ok::<EntrySpec, Seq<char>>(entry_view(p)),
            Err(e) => spec_validate_entry(raw.key@, raw.value@) == Err::<EntrySpec, Seq<char>>(e@),
        },
        tonic_binary_key(raw.key@) is Some ==> forall|data: Seq<u8>|
            #[trigger] base64_standard(data) == raw.value@ ==> (res matches Ok(
                ParsedEntry::Binary { value, .. },
            ) && value@ == data),
{
    match binary_key(raw.key.as_str()) {
        Some(key) => match decode_base64(raw.value.as_str()) {
            Some(value) => Ok(ParsedEntry::Binary { key, value }),
            None => {
                proof {
                    reveal_strlit("invalid base64");
                }
                Err("invalid base64".to_owned())
            },
        },
        None => {
            let key = ascii_key(raw.key.as_str())?;
            match ascii_value(raw.value.as_str()) {
                Ok(()) => Ok(ParsedEntry::Ascii { key, value: raw.value.clone() }),
                Err(e) => Err(e),
            }
        },
    }
}

/// The entries that the valid rows stand for, in order.
pub open spec fn valid_entries(rows: Seq<EditableEntry>) -> Seq<EntrySpec>
    decreases rows.len(),
{
    if rows.len() == 0 {
        Seq::empty()
    } else {
        let init = valid_entries(rows.drop_last());
        match spec_validate_entry(rows.last().key@, rows.last().value@) {
            Ok(e) => init.push(e),
            Err(_) => init,
        }
    }
}

/// The metadata rows of a request.
#[derive(Debug, Clone)]
pub struct EditableState {
    pub entries: Vec<EditableEntry>,
}

impl EditableState {
    /// A copy of these rows.
    pub fn duplicate(&self) -> (res: EditableState)
        ensures
            res.entries@ == self.entries@,
    {
        let mut entries: Vec<EditableEntry> = Vec::new();
        let mut i: usize = 0;
        while i < self.entries.len()
            invariant
                i <= self.entries@.len(),
                entries@ == self.entries@.subrange(0, i as int),
            decreases self.entries@.len() - i,
        {
            entries.push(self.entries[i].duplicate());
            proof {
                assert(entries@ =~= self.entries@.subrange(0, i + 1));
            }
            i = i + 1;
        }
        proof {
            assert(entries@ =~= self.entries@);
        }
        EditableState { entries }
    }

    /// The metadata a request is sent with: the entry of each valid row, in
    /// the order of the rows; invalid rows are left out.
    pub fn metadata(&self) -> (res: Vec<ParsedEntry>)
        ensures
            res@.map_values(|p: ParsedEntry| entry_view(p)) == valid_entries(self.entries@),
    {
        let mut res: Vec<ParsedEntry> = Vec::new();
        let mut i: usize = 0;
        while i < self.entries.len()
            invariant
                i <= self.entries@.len(),
                res@.map_values(|p: ParsedEntry| entry_view(p)) == valid_entries(
                    self.entries@.subrange(0, i as int),
                ),
            decreases self.entries@.len() - i,
        {
            let ghost before = res@;
            let r = validate_entry(&self.entries[i]);
            proof {
                let rows = self.entries@.subrange(0, i + 1);
                assert(rows.drop_last() =~= self.entries@.subrange(0, i as int));
                assert(rows.last() == self.entries@[i as int]);
            }
            match r {
                Ok(p) => {
                    res.push(p);
                    proof {
                        assert(res@.map_values(|p: ParsedEntry| entry_view(p)) =~= before.map_values(
                            |p: ParsedEntry| entry_view(p),
                        ).push(entry_view(res@.last())));
                    }
                },
                Err(_) => {},
            }
            i = i + 1;
        }
        proof {
            assert(self.entries@.subrange(0, self.entries@.len() as int) =~= self.entries@);
        }
        res
    }

    /// Drops the rows marked for deletion, keeping the others in order.
    pub fn remove_deleted(&mut self)
        ensures
            final(self).entries@ == old(self).entries@.filter(|e: EditableEntry| !e.deleted),
    {
        let mut kept: Vec<EditableEntry> = Vec::new();
        let mut i: usize = 0;
        while i < self.entries.len()
            invariant
                i <= self.entries@.len(),
                kept@ == self.entries@.subrange(0, i as int).filter(|e: EditableEntry| !e.deleted),
            decreases self.entries@.len() - i,
        {
            proof {
                reveal_with_fuel(Seq::filter, 1);
                let rows = self.entries@.subrange(0, i + 1);
                assert(rows.drop_last() =~= self.entries@.subrange(0, i as int));
            }
            if !self.entries[i].deleted {
                kept.push(self.entries[i].duplicate());
            }
            i = i + 1;
        }
        proof {
            assert(self.entries@.subrange(0, self.entries@.len() as int) =~= self.entries@);
        }
        self.entries = kept;
    }
}

} // verus!
