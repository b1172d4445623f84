//! The canonical byte form of a vault.
//!
//! A vault is serialized before sealing and parsed back after opening. The
//! form is a 4-byte little-endian entry count followed by the entries, each
//! entry being its three fields in order, each field a 4-byte little-endian
//! byte length followed by the field's UTF-8 bytes. Parsing accepts exactly
//! the canonical encodings: [`lemma_vault_codec_round_trip`] shows that
//! parsing inverts serialization, and [`lemma_parse_vault_sound`] that a
//! parsed vault re-serializes to the very bytes parsed.

use vstd::prelude::*;
use vstd::bytes::{
    lemma_auto_spec_u32_to_from_le_bytes, spec_u32_from_le_bytes, spec_u32_to_le_bytes,
    u32_from_le_bytes, u32_to_le_bytes,
};
use vstd::slice::{slice_subrange, slice_to_vec};
use vstd::string::StrSliceExecFns;
use vstd::utf8::{
    decode_utf8, decode_utf8_encode_utf8, encode_utf8, encode_utf8_decode_utf8,
    encode_utf8_valid_utf8, valid_utf8,
};
use crate::entry::{EntryView, PasswordEntry, Vault};

verus! {

/// A field fits the format when its UTF-8 byte length fits the 4-byte prefix.
pub open spec fn field_wf(s: Seq<char>) -> bool {
    encode_utf8(s).len() <= u32::MAX
}

/// Every field of the entry fits the format.
pub open spec fn entry_wf(e: EntryView) -> bool {
    field_wf(e.name) && field_wf(e.username) && field_wf(e.password)
}

/// The vault fits the format: the entry count fits the 4-byte prefix and
/// every entry fits.
pub open spec fn vault_wf(v: Seq<EntryView>) -> bool {
    &&& v.len() <= u32::MAX
    &&& forall|i: int| 0 <= i < v.len() ==> entry_wf(#[trigger] v[i])
}

/// The canonical bytes of one field.
pub open spec fn field_bytes(s: Seq<char>) -> Seq<u8> {
    spec_u32_to_le_bytes(encode_utf8(s).len() as u32) + encode_utf8(s)
}

/// The canonical bytes of one entry.
pub open spec fn entry_bytes(e: EntryView) -> Seq<u8> {
    field_bytes(e.name) + field_bytes(e.username) + field_bytes(e.password)
}

/// The canonical bytes of a sequence of entries.
pub open spec fn entries_bytes(v: Seq<EntryView>) -> Seq<u8>
    decreases v.len(),
{
    if v.len() == 0 {
        Seq::empty()
    } else {
        entry_bytes(v[0]) + entries_bytes(v.drop_first())
    }
}

/// The canonical bytes of a whole vault.
pub open spec fn vault_bytes(v: Seq<EntryView>) -> Seq<u8> {
    spec_u32_to_le_bytes(v.len() as u32) + entries_bytes(v)
}

/// The byte length of one serialized entry: three 4-byte length prefixes and
/// the three fields' UTF-8 bytes.
pub open spec fn entry_size(e: EntryView) -> int {
    12 + encode_utf8(e.name).len() as int + encode_utf8(e.username).len() as int + encode_utf8(
        e.password,
    ).len() as int
}

/// The byte length of a serialized entry sequence.
pub open spec fn entries_size(v: Seq<EntryView>) -> int
    decreases v.len(),
{
    if v.len() == 0 {
        0
    } else {
        entry_size(v[0]) + entries_size(v.drop_first())
    }
}

/// The most serialized bytes a vault may occupy: the sealing cipher caps its
/// plaintext below this.
pub const VAULT_BYTES_MAX: u64 = 0xf_ffff_ffff;

/// A vault is encryptable when it fits the format and its canonical bytes
/// stay within the cipher's plaintext cap.
pub open spec fn vault_fits(v: Seq<EntryView>) -> bool {
    vault_wf(v) && vault_bytes(v).len() <= VAULT_BYTES_MAX
}

proof fn lemma_entries_bytes_size(v: Seq<EntryView>)
    ensures
        entries_bytes(v).len() == entries_size(v),
    decreases v.len(),
{
    lemma_auto_spec_u32_to_from_le_bytes();
    if v.len() > 0 {
        lemma_entries_bytes_size(v.drop_first());
    }
}

proof fn lemma_entries_size_push(v: Seq<EntryView>, e: EntryView)
    ensures
        entries_size(v.push(e)) == entries_size(v) + entry_size(e),
    decreases v.len(),
{
    if v.len() == 0 {
        assert(v.push(e).drop_first() =~= v);
    } else {
        assert(v.push(e).drop_first() =~= v.drop_first().push(e));
        assert(v.push(e)[0] == v[0]);
        lemma_entries_size_push(v.drop_first(), e);
    }
}

proof fn lemma_entries_size_nonneg(v: Seq<EntryView>)
    ensures
        entries_size(v) >= 0,
    decreases v.len(),
{
    if v.len() > 0 {
        lemma_entries_size_nonneg(v.drop_first());
    }
}

proof fn lemma_entries_size_take_le(v: Seq<EntryView>, i: int)
    requires
        0 <= i <= v.len(),
    ensures
        entries_size(v.take(i)) <= entries_size(v),
    decreases v.len() - i,
{
    if i < v.len() {
        lemma_entries_size_push(v.take(i), v[i]);
        assert(v.take(i + 1) =~= v.take(i).push(v[i]));
        lemma_entries_size_take_le(v, i + 1);
    } else {
        assert(v.take(i) =~= v);
    }
}

/// An empty vault always fits: its canonical form is the four count bytes.
pub proof fn lemma_empty_vault_fits()
    ensures
        vault_fits(Seq::<EntryView>::empty()),
{
    lemma_auto_spec_u32_to_from_le_bytes();
    assert(entries_bytes(Seq::<EntryView>::empty()) =~= Seq::<u8>::empty());
}

/// Decides whether a vault is encryptable: every entry's fields and the
/// whole serialized form stay within the format's and the cipher's caps.
pub fn check_vault_fits(v: &Vault) -> (r: bool)
    ensures
        r == vault_fits(v@),
{
    proof {
        lemma_auto_spec_u32_to_from_le_bytes();
        lemma_entries_bytes_size(v@);
        lemma_entries_size_nonneg(v@);
    }
    if v.entries.len() > 0xffff_ffff {
        return false;
    }
    let n = v.entries.len();
    let mut size: u64 = 4;
    let mut i: usize = 0;
    while i < n
        invariant
            i <= n,
            n == v.entries.len(),
            n <= 0xffff_ffff,
            v@.len() == n,
            size == 4 + entries_size(v@.take(i as int)),
            size <= 4 + VAULT_BYTES_MAX,
            forall|j: int| 0 <= j < i ==> entry_wf(#[trigger] v@[j]),
        decreases n - i,
    {
        let e = &v.entries[i];
        assert(v@[i as int] == e@);
        let name_len = e.name.as_str().as_bytes().len();
        let user_len = e.username.as_str().as_bytes().len();
        let pass_len = e.password.expose().as_bytes().len();
        if name_len > 0xffff_ffff || user_len > 0xffff_ffff || pass_len > 0xffff_ffff {
            return false;
        }
        proof {
            lemma_entries_size_push(v@.take(i as int), v@[i as int]);
            assert(v@.take(i + 1) =~= v@.take(i as int).push(v@[i as int]));
        }
        let step: u64 = 12 + name_len as u64 + user_len as u64 + pass_len as u64;
        if size > VAULT_BYTES_MAX || step > VAULT_BYTES_MAX - size {
            proof {
                lemma_auto_spec_u32_to_from_le_bytes();
                lemma_entries_size_take_le(v@, i as int);
                lemma_entries_size_take_le(v@, i + 1);
                lemma_entries_bytes_size(v@);
            }
            return false;
        }
        size = size + step;
        i = i + 1;
    }
    proof {
        lemma_auto_spec_u32_to_from_le_bytes();
        assert(v@.take(n as int) =~= v@);
        lemma_entries_bytes_size(v@);
    }
    size <= VAULT_BYTES_MAX
}

/// Parses one field off the front of `b`: the field and the remaining bytes.
pub open spec fn parse_field_spec(b: Seq<u8>) -> Option<(Seq<char>, Seq<u8>)> {
    if b.len() < 4 {
        None
    } else {
        let n = spec_u32_from_le_bytes(b.take(4)) as int;
        if n > b.len() - 4 {
            None
        } else {
            let data = b.subrange(4, 4 + n);
            if valid_utf8(data) {
                Some((decode_utf8(data), b.skip(4 + n)))
            } else {
                None
            }
        }
    }
}

/// Parses one entry (three fields) off the front of `b`.
pub open spec fn parse_entry_spec(b: Seq<u8>) -> Option<(EntryView, Seq<u8>)> {
    match parse_field_spec(b) {
        None => None,
        Some((name, b1)) => match parse_field_spec(b1) {
            None => None,
            Some((username, b2)) => match parse_field_spec(b2) {
                None => None,
                Some((password, b3)) => Some((EntryView { name, username, password }, b3)),
            },
        },
    }
}

/// Parses exactly `k` entries off the front of `b`.
pub open spec fn parse_entries_spec(b: Seq<u8>, k: nat) -> Option<(Seq<EntryView>, Seq<u8>)>
    decreases k,
{
    if k == 0 {
        Some((Seq::empty(), b))
    } else {
        match parse_entry_spec(b) {
            None => None,
            Some((e, rest)) => match parse_entries_spec(rest, (k - 1) as nat) {
                None => None,
                Some((es, rest2)) => Some((seq![e] + es, rest2)),
            },
        }
    }
}

/// Parses a whole vault: the count, that many entries, and nothing left over.
pub open spec fn parse_vault_spec(b: Seq<u8>) -> Option<Seq<EntryView>> {
    if b.len() < 4 {
        None
    } else {
        let k = spec_u32_from_le_bytes(b.take(4)) as nat;
        match parse_entries_spec(b.skip(4), k) {
            None => None,
            Some((es, rest)) => if rest.len() == 0 {
                Some(es)
            } else {
                None
            },
        }
    }
}

proof fn lemma_parse_field_of_field_bytes(s: Seq<char>, rest: Seq<u8>)
    requires
        field_wf(s),
    ensures
        parse_field_spec(field_bytes(s) + rest) == Some((s, rest)),
{
    lemma_auto_spec_u32_to_from_le_bytes();
    let data = encode_utf8(s);
    let b = field_bytes(s) + rest;
    assert(b.take(4) =~= spec_u32_to_le_bytes(data.len() as u32));
    assert(b.subrange(4, 4 + data.len() as int) =~= data);
    encode_utf8_valid_utf8(s);
    encode_utf8_decode_utf8(s);
    assert(b.skip(4 + data.len() as int) =~= rest);
}

proof fn lemma_parse_field_sound(b: Seq<u8>, s: Seq<char>, rest: Seq<u8>)
    requires
        parse_field_spec(b) == Some((s, rest)),
    ensures
        field_wf(s),
        field_bytes(s) + rest == b,
{
    lemma_auto_spec_u32_to_from_le_bytes();
    let n = spec_u32_from_le_bytes(b.take(4)) as int;
    let data = b.subrange(4, 4 + n);
    decode_utf8_encode_utf8(data);
    assert(encode_utf8(s) == data);
    assert(field_bytes(s) =~= b.take(4) + data);
    assert(field_bytes(s) + rest =~= b);
}

proof fn lemma_parse_entry_of_entry_bytes(e: EntryView, rest: Seq<u8>)
    requires
        entry_wf(e),
    ensures
        parse_entry_spec(entry_bytes(e) + rest) == Some((e, rest)),
{
    let b = entry_bytes(e) + rest;
    assert(b =~= field_bytes(e.name) + (field_bytes(e.username) + (field_bytes(e.password)
        + rest)));
    lemma_parse_field_of_field_bytes(e.name, field_bytes(e.username) + (field_bytes(e.password)
        + rest));
    lemma_parse_field_of_field_bytes(e.username, field_bytes(e.password) + rest);
    lemma_parse_field_of_field_bytes(e.password, rest);
}

proof fn lemma_parse_entry_sound(b: Seq<u8>, e: EntryView, rest: Seq<u8>)
    requires
        parse_entry_spec(b) == Some((e, rest)),
    ensures
        entry_wf(e),
        entry_bytes(e) + rest == b,
{
    let (name, b1) = parse_field_spec(b).unwrap();
    let (username, b2) = parse_field_spec(b1).unwrap();
    let (password, b3) = parse_field_spec(b2).unwrap();
    lemma_parse_field_sound(b, name, b1);
    lemma_parse_field_sound(b1, username, b2);
    lemma_parse_field_sound(b2, password, b3);
    assert(entry_bytes(e) + rest =~= b);
}

proof fn lemma_parse_entries_of_entries_bytes(v: Seq<EntryView>, rest: Seq<u8>)
    requires
        forall|i: int| 0 <= i < v.len() ==> entry_wf(#[trigger] v[i]),
    ensures
        parse_entries_spec(entries_bytes(v) + rest, v.len()) == Some((v, rest)),
    decreases v.len(),
{
    if v.len() == 0 {
        assert(entries_bytes(v) + rest =~= rest);
        assert(parse_entries_spec(rest, 0) == Some((Seq::<EntryView>::empty(), rest)));
        assert(v =~= Seq::<EntryView>::empty());
    } else {
        let tail = v.drop_first();
        assert(entries_bytes(v) + rest =~= entry_bytes(v[0]) + (entries_bytes(tail) + rest));
        lemma_parse_entry_of_entry_bytes(v[0], entries_bytes(tail) + rest);
        lemma_parse_entries_of_entries_bytes(tail, rest);
        assert(seq![v[0]] + tail =~= v);
    }
}

#[verifier::rlimit(30)]
proof fn lemma_parse_entries_sound(b: Seq<u8>, k: nat, es: Seq<EntryView>, rest: Seq<u8>)
    requires
        parse_entries_spec(b, k) == Some((es, rest)),
    ensures
        es.len() == k,
        forall|i: int| 0 <= i < es.len() ==> entry_wf(#[trigger] es[i]),
        entries_bytes(es) + rest == b,
    decreases k,
{
    if k == 0 {
        assert(es =~= Seq::<EntryView>::empty());
        assert(entries_bytes(es) + rest =~= b);
    } else {
        let (e, mid) = parse_entry_spec(b).unwrap();
        let (es2, rest2) = parse_entries_spec(mid, (k - 1) as nat).unwrap();
        lemma_parse_entry_sound(b, e, mid);
        lemma_parse_entries_sound(mid, (k - 1) as nat, es2, rest2);
        assert(es == seq![e] + es2);
        assert(es.drop_first() =~= es2);
        assert(es[0] == e);
        assert(entries_bytes(es) + rest =~= entry_bytes(e) + (entries_bytes(es2) + rest2));
        assert(entry_bytes(e) + (entries_bytes(es2) + rest2) =~= b);
    }
}

/// Parsing inverts serialization: the canonical bytes of any well-formed
/// vault value parse back to exactly that value, entry order and contents
/// preserved.
pub proof fn lemma_vault_codec_round_trip(v: Seq<EntryView>)
    requires
        vault_wf(v),
    ensures
        parse_vault_spec(vault_bytes(v)) == Some(v),
{
    lemma_auto_spec_u32_to_from_le_bytes();
    let b = vault_bytes(v);
    assert(b.take(4) =~= spec_u32_to_le_bytes(v.len() as u32));
    assert(b.skip(4) =~= entries_bytes(v) + Seq::<u8>::empty());
    lemma_parse_entries_of_entries_bytes(v, Seq::empty());
}

/// Serialization inverts parsing: any bytes that parse as a vault are the
/// canonical bytes of the parsed value, so no two vault values share an
/// encoding and no encoding carries unread bytes.
pub proof fn lemma_parse_vault_sound(b: Seq<u8>, v: Seq<EntryView>)
    requires
        parse_vault_spec(b) == Some(v),
    ensures
        vault_wf(v),
        vault_bytes(v) == b,
{
    lemma_auto_spec_u32_to_from_le_bytes();
    let k = spec_u32_from_le_bytes(b.take(4)) as nat;
    let (es, rest) = parse_entries_spec(b.skip(4), k).unwrap();
    lemma_parse_entries_sound(b.skip(4), k, es, rest);
    assert(rest =~= Seq::<u8>::empty());
    assert(entries_bytes(v) =~= entries_bytes(v) + rest);
    assert(vault_bytes(v) =~= b.take(4) + b.skip(4));
    assert(b.take(4) + b.skip(4) =~= b);
}

/// Relies on `String::from_utf8`: it succeeds exactly on valid UTF-8 input
/// and returns its decoding.
#[verifier::external_body]
fn string_from_utf8(bytes: Vec<u8>) -> (r: Option<String>)
    ensures
        r is Some <==> valid_utf8(bytes@),
        r matches Some(s) ==> s@ == decode_utf8(bytes@),
{
    String::from_utf8(bytes).ok()
}

fn push_field(out: &mut Vec<u8>, s: &str)
    requires
        field_wf(s@),
    ensures
        final(out)@ == old(out)@ + field_bytes(s@),
{
    let mut data = s.as_bytes_vec();
    let mut len_bytes = u32_to_le_bytes(data.len() as u32);
    out.append(&mut len_bytes);
    out.append(&mut data);
}

/// Serializes a vault to its canonical byte form.
pub fn serialize_vault(v: &Vault) -> (r: Vec<u8>)
    requires
        vault_wf(v@),
    ensures
        r@ == vault_bytes(v@),
{
    let mut out = u32_to_le_bytes(v.entries.len() as u32);
    let ghost prefix = out@;
    let mut i: usize = 0;
    while i < v.entries.len()
        invariant
            vault_wf(v@),
            i <= v.entries.len(),
            v@.len() == v.entries.len(),
            out@ == prefix + entries_bytes(v@.take(i as int)),
            prefix == spec_u32_to_le_bytes(v@.len() as u32),
        decreases v.entries.len() - i,
    {
        let e = &v.entries[i];
        assert(v@[i as int] == e@);
        push_field(&mut out, e.name.as_str());
        push_field(&mut out, e.username.as_str());
        push_field(&mut out, e.password.expose());
        proof {
            lemma_entries_bytes_push(v@.take(i as int), v@[i as int]);
            assert(v@.take(i + 1) =~= v@.take(i as int).push(v@[i as int]));
            assert(out@ =~= prefix + entries_bytes(v@.take(i + 1)));
        }
        i = i + 1;
    }
    proof {
        assert(v@.take(v@.len() as int) =~= v@);
    }
    out
}

proof fn lemma_entries_bytes_push(v: Seq<EntryView>, e: EntryView)
    ensures
        entries_bytes(v.push(e)) == entries_bytes(v) + entry_bytes(e),
    decreases v.len(),
{
    if v.len() == 0 {
        assert(v.push(e).drop_first() =~= v);
        assert(v.push(e)[0] == e);
        assert(entries_bytes(v.push(e)) =~= entries_bytes(v) + entry_bytes(e));
    } else {
        assert(v.push(e).drop_first() =~= v.drop_first().push(e));
        assert(v.push(e)[0] == v[0]);
        lemma_entries_bytes_push(v.drop_first(), e);
        assert(entries_bytes(v.push(e)) =~= entries_bytes(v) + entry_bytes(e));
    }
}

fn read_field(bytes: &[u8], pos: usize) -> (r: Option<(String, usize)>)
    requires
        pos <= bytes@.len(),
    ensures
        match r {
            Some(sp) => {
                &&& parse_field_spec(bytes@.skip(pos as int)) == Some(
                    (sp.0@, bytes@.skip(sp.1 as int)),
                )
                &&& pos <= sp.1 <= bytes@.len()
            },
            None => parse_field_spec(bytes@.skip(pos as int)) is None,
        },
{
    let total = bytes.len();
    let ghost tail = bytes@.skip(pos as int);
    if total - pos < 4 {
        return None;
    }
    let len_slice = slice_subrange(bytes, pos, pos + 4);
    proof {
        assert(len_slice@ =~= tail.take(4));
    }
    let n = u32_from_le_bytes(len_slice) as usize;
    if n > total - pos - 4 {
        return None;
    }
    let data_slice = slice_subrange(bytes, pos + 4, pos + 4 + n);
    proof {
        assert(data_slice@ =~= tail.subrange(4, 4 + n as int));
    }
    let data = slice_to_vec(data_slice);
    match string_from_utf8(data) {
        Some(s) => {
            proof {
                assert(bytes@.skip((pos + 4 + n) as int) =~= tail.skip(4 + n as int));
            }
            Some((s, pos + 4 + n))
        },
        None => None,
    }
}

fn read_entry(bytes: &[u8], pos: usize) -> (r: Option<(PasswordEntry, usize)>)
    requires
        pos <= bytes@.len(),
    ensures
        match r {
            Some(ep) => {
                &&& parse_entry_spec(bytes@.skip(pos as int)) == Some(
                    (ep.0@, bytes@.skip(ep.1 as int)),
                )
                &&& pos <= ep.1 <= bytes@.len()
            },
            None => parse_entry_spec(bytes@.skip(pos as int)) is None,
        },
{
    let (name, p1) = match read_field(bytes, pos) {
        Some(sp) => sp,
        None => {
            return None;
        },
    };
    let (username, p2) = match read_field(bytes, p1) {
        Some(sp) => sp,
        None => {
            return None;
        },
    };
    let (password, p3) = match read_field(bytes, p2) {
        Some(sp) => sp,
        None => {
            return None;
        },
    };
    Some((PasswordEntry::new(name, username, password), p3))
}

/// The prefix prepended to whatever a remaining parse yields.
pub open spec fn prepend_entries(
    pre: Seq<EntryView>,
    o: Option<(Seq<EntryView>, Seq<u8>)>,
) -> Option<(Seq<EntryView>, Seq<u8>)> {
    match o {
        None => None,
        Some((es, rest)) => Some((pre + es, rest)),
    }
}

/// Parses the canonical byte form back into a vault. Returns the vault that
/// the bytes encode, or nothing when the bytes are not a canonical encoding.
pub fn parse_vault(bytes: &[u8]) -> (r: Option<Vault>)
    ensures
        match r {
            Some(v) => parse_vault_spec(bytes@) == Some(v@),
            None => parse_vault_spec(bytes@) is None,
        },
{
    let total = bytes.len();
    if total < 4 {
        return None;
    }
    let len_slice = slice_subrange(bytes, 0, 4);
    proof {
        assert(len_slice@ =~= bytes@.take(4));
    }
    let k = u32_from_le_bytes(len_slice) as usize;
    let mut entries: Vec<PasswordEntry> = Vec::new();
    let mut pos: usize = 4;
    let mut j: usize = 0;
    proof {
        assert(entries@.map_values(|e: PasswordEntry| e@) =~= Seq::<EntryView>::empty());
    }
    while j < k
        invariant
            4 <= pos <= bytes@.len(),
            j <= k,
            total == bytes@.len(),
            k == spec_u32_from_le_bytes(bytes@.take(4)) as usize,
            entries@.len() == j,
            parse_entries_spec(bytes@.skip(4), k as nat) == prepend_entries(
                entries@.map_values(|e: PasswordEntry| e@),
                parse_entries_spec(bytes@.skip(pos as int), (k - j) as nat),
            ),
        decreases k - j,
    {
        let ghost done = entries@.map_values(|e: PasswordEntry| e@);
        match read_entry(bytes, pos) {
            Some((e, p2)) => {
                proof {
                    let mid = parse_entries_spec(bytes@.skip(p2 as int), (k - j - 1) as nat);
                    if mid is Some {
                        let (es, rest) = mid.unwrap();
                        assert(seq![e@] + es =~= (done.push(e@) + es).skip(j as int));
                        assert(done + (seq![e@] + es) =~= done.push(e@) + es);
                    }
                }
                entries.push(e);
                proof {
                    assert(entries@.map_values(|en: PasswordEntry| en@) =~= done.push(e@));
                }
                pos = p2;
            },
            None => {
                return None;
            },
        }
        j = j + 1;
    }
    proof {
        assert(parse_entries_spec(bytes@.skip(pos as int), 0) == Some(
            (Seq::<EntryView>::empty(), bytes@.skip(pos as int)),
        ));
        assert(parse_entries_spec(bytes@.skip(4), k as nat) == Some(
            (
                entries@.map_values(|e: PasswordEntry| e@) + Seq::<EntryView>::empty(),
                bytes@.skip(pos as int),
            ),
        ));
    }
    if pos != total {
        proof {
            assert(bytes@.skip(pos as int).len() != 0);
        }
        return None;
    }
    proof {
        assert(bytes@.skip(pos as int).len() == 0);
        assert(entries@.map_values(|e: PasswordEntry| e@) + Seq::<EntryView>::empty()
            =~= entries@.map_values(|e: PasswordEntry| e@));
    }
    Some(Vault { entries })
}

} // verus!
