use vstd::prelude::*;

use vstd::bytes::{
    lemma_auto_spec_u32_to_from_le_bytes, lemma_auto_spec_u64_to_from_le_bytes,
    spec_u32_from_le_bytes, spec_u32_to_le_bytes, spec_u64_from_le_bytes, spec_u64_to_le_bytes,
    u32_from_le_bytes, u32_to_le_bytes, u64_from_le_bytes, u64_to_le_bytes,
};
use vstd::slice::slice_subrange;

use crate::encrypted_password::{CounterNonce, EncryptedPasswords};
use crate::master_password::Pbkdf2Component;
use vstd::utf8::{char_is_scalar, char_u32_cast};

verus! {

// ---------------------------------------------------------------------------
// Trusted conversions
// ---------------------------------------------------------------------------
/// Relies on `char::from_u32`: returns `Some` exactly for Unicode scalar
/// values (everything up to 0x10FFFF except the surrogate range), and the
/// returned character casts back to the input value.
#[verifier::external_body]
fn char_from_u32(u: u32) -> (r: Option<char>)
    ensures
        r is Some <==> (u <= 0x10FFFF && !(0xD800 <= u <= 0xDFFF)),
        r is Some ==> r->0 as u32 == u,
{
    char::from_u32(u)
}

/// Relies on `String::from_iter` over characters: collecting characters
/// yields the string with exactly those characters in order.
#[verifier::external_body]
pub(crate) fn chars_to_string(chars: &Vec<char>) -> (s: String)
    ensures
        s@ == chars@,
{
    chars.iter().collect()
}

// ---------------------------------------------------------------------------
// Specification of the byte shapes
// ---------------------------------------------------------------------------
/// Each character as its scalar value in four little-endian bytes.
pub open spec fn spec_chars_bytes(s: Seq<char>) -> Seq<u8>
    decreases s.len(),
{
    if s.len() == 0 {
        Seq::empty()
    } else {
        spec_u32_to_le_bytes(s[0] as u32) + spec_chars_bytes(s.drop_first())
    }
}

/// A string: its character count as eight little-endian bytes, then the
/// characters.
pub open spec fn spec_string_bytes(s: Seq<char>) -> Seq<u8> {
    spec_u64_to_le_bytes(s.len() as u64) + spec_chars_bytes(s)
}

/// One secret entry: the name, then the value.
pub open spec fn spec_entry_bytes(e: (String, String)) -> Seq<u8> {
    spec_string_bytes(e.0@) + spec_string_bytes(e.1@)
}

/// All entries in order.
pub open spec fn spec_entries_bytes(s: Seq<(String, String)>) -> Seq<u8>
    decreases s.len(),
{
    if s.len() == 0 {
        Seq::empty()
    } else {
        spec_entry_bytes(s[0]) + spec_entries_bytes(s.drop_first())
    }
}

/// The whole secret map: the entry count as eight little-endian bytes,
/// then the entries.  This is the plaintext handed to the sealing layer;
/// it is total, deterministic, and decoded below without ambiguity.
pub open spec fn spec_map_bytes(s: Seq<(String, String)>) -> Seq<u8> {
    spec_u64_to_le_bytes(s.len() as u64) + spec_entries_bytes(s)
}

/// The character views of a sequence of entries; two entry sequences with
/// equal views hold the same secrets.
pub open spec fn entries_views(s: Seq<(String, String)>) -> Seq<(Seq<char>, Seq<char>)> {
    s.map_values(|e: (String, String)| (e.0@, e.1@))
}

/// No two entries share a name.
pub open spec fn unique_keys(s: Seq<(String, String)>) -> bool {
    forall|i: int, j: int| 0 <= i < j < s.len() ==> s[i].0@ != s[j].0@
}

/// `part` occurs in `bytes` starting at `pos`.
pub open spec fn starts_at(bytes: Seq<u8>, pos: int, part: Seq<u8>) -> bool {
    &&& 0 <= pos
    &&& pos + part.len() <= bytes.len()
    &&& bytes.subrange(pos, pos + part.len() as int) == part
}

// ---------------------------------------------------------------------------
// Lemmas about the byte shapes
// ---------------------------------------------------------------------------
pub proof fn lemma_chars_bytes_len(s: Seq<char>)
    ensures
        spec_chars_bytes(s).len() == 4 * s.len(),
    decreases s.len(),
{
    lemma_auto_spec_u32_to_from_le_bytes();
    if s.len() > 0 {
        lemma_chars_bytes_len(s.drop_first());
    }
}

/// Appending one character appends its four bytes.
pub proof fn lemma_chars_bytes_snoc(s: Seq<char>)
    requires
        s.len() > 0,
    ensures
        spec_chars_bytes(s) == spec_chars_bytes(s.drop_last()) + spec_u32_to_le_bytes(
            s.last() as u32,
        ),
    decreases s.len(),
{
    if s.len() == 1 {
        assert(s.drop_last() =~= Seq::<char>::empty());
        assert(s.drop_first() =~= Seq::<char>::empty());
        assert(spec_chars_bytes(s) =~= spec_chars_bytes(s.drop_last()) + spec_u32_to_le_bytes(
            s.last() as u32,
        ));
    } else {
        lemma_chars_bytes_snoc(s.drop_first());
        assert(s.drop_first().drop_last() =~= s.drop_last().drop_first());
        assert(s.drop_first().last() == s.last());
        assert(s.drop_last()[0] == s[0]);
        assert(spec_chars_bytes(s) =~= spec_chars_bytes(s.drop_last()) + spec_u32_to_le_bytes(
            s.last() as u32,
        ));
    }
}

/// The four bytes of character `i` sit at offset `4 * i`.
pub proof fn lemma_chars_bytes_index(s: Seq<char>, i: int)
    requires
        0 <= i < s.len(),
    ensures
        spec_chars_bytes(s).subrange(4 * i, 4 * i + 4) == spec_u32_to_le_bytes(s[i] as u32),
    decreases i,
{
    lemma_auto_spec_u32_to_from_le_bytes();
    lemma_chars_bytes_len(s);
    lemma_chars_bytes_len(s.drop_first());
    if i == 0 {
        assert(spec_chars_bytes(s).subrange(0, 4) =~= spec_u32_to_le_bytes(s[0] as u32));
    } else {
        lemma_chars_bytes_index(s.drop_first(), i - 1);
        assert(s.drop_first()[i - 1] == s[i]);
        assert(spec_chars_bytes(s).subrange(4 * i, 4 * i + 4) =~= spec_chars_bytes(
            s.drop_first(),
        ).subrange(4 * (i - 1), 4 * (i - 1) + 4));
    }
}

/// Appending one entry appends its bytes.
pub proof fn lemma_entries_bytes_snoc(s: Seq<(String, String)>)
    requires
        s.len() > 0,
    ensures
        spec_entries_bytes(s) == spec_entries_bytes(s.drop_last()) + spec_entry_bytes(s.last()),
    decreases s.len(),
{
    if s.len() == 1 {
        assert(s.drop_last() =~= Seq::<(String, String)>::empty());
        assert(s.drop_first() =~= Seq::<(String, String)>::empty());
        assert(spec_entries_bytes(s) =~= spec_entries_bytes(s.drop_last()) + spec_entry_bytes(
            s.last(),
        ));
    } else {
        lemma_entries_bytes_snoc(s.drop_first());
        assert(s.drop_first().drop_last() =~= s.drop_last().drop_first());
        assert(s.drop_first().last() == s.last());
        assert(s.drop_last()[0] == s[0]);
        assert(spec_entries_bytes(s) =~= spec_entries_bytes(s.drop_last()) + spec_entry_bytes(
            s.last(),
        ));
    }
}

/// The encoded entries split at any index.
pub proof fn lemma_entries_bytes_split(s: Seq<(String, String)>, i: int)
    requires
        0 <= i <= s.len(),
    ensures
        spec_entries_bytes(s) == spec_entries_bytes(s.take(i)) + spec_entries_bytes(s.skip(i)),
    decreases i,
{
    if i == 0 {
        assert(s.take(0) =~= Seq::<(String, String)>::empty());
        assert(s.skip(0) =~= s);
        assert(spec_entries_bytes(s) =~= spec_entries_bytes(s.take(0)) + spec_entries_bytes(
            s.skip(0),
        ));
    } else {
        lemma_entries_bytes_split(s, i - 1);
        lemma_entries_bytes_snoc(s.take(i));
        assert(s.take(i).drop_last() =~= s.take(i - 1));
        assert(s.take(i).last() == s[i - 1]);
        assert(s.skip(i - 1) =~= seq![s[i - 1]] + s.skip(i));
        assert(spec_entries_bytes(s.skip(i - 1)) == spec_entry_bytes(s[i - 1])
            + spec_entries_bytes(s.skip(i - 1).drop_first()));
        assert(s.skip(i - 1).drop_first() =~= s.skip(i));
        assert(s.skip(i - 1)[0] == s[i - 1]);
        assert(spec_entries_bytes(s) =~= spec_entries_bytes(s.take(i)) + spec_entries_bytes(
            s.skip(i),
        ));
    }
}

/// Every encoded entry takes at least sixteen bytes.
pub proof fn lemma_entries_bytes_min_len(s: Seq<(String, String)>)
    ensures
        spec_entries_bytes(s).len() >= 16 * s.len(),
    decreases s.len(),
{
    lemma_auto_spec_u64_to_from_le_bytes();
    if s.len() > 0 {
        lemma_entries_bytes_min_len(s.drop_first());
        lemma_chars_bytes_len(s[0].0@);
        lemma_chars_bytes_len(s[0].1@);
    }
}

// ---------------------------------------------------------------------------
// Verified helpers
// ---------------------------------------------------------------------------
/// Appends all of `src` to `out`.
pub fn append_bytes(out: &mut Vec<u8>, src: &[u8])
    ensures
        final(out)@ == old(out)@ + src@,
{
    let ghost orig = out@;
    let mut i: usize = 0;
    while i < src.len()
        invariant
            i <= src@.len(),
            out@ =~= orig + src@.take(i as int),
        decreases src@.len() - i,
    {
        let b = *vstd::slice::slice_index_get(src, i);
        out.push(b);
        i = i + 1;
    }
    proof {
        assert(src@.take(src@.len() as int) =~= src@);
    }
}

/// A vector of `n` zero bytes.
pub fn zero_bytes(n: usize) -> (v: Vec<u8>)
    ensures
        v@.len() == n,
        forall|i: int| 0 <= i < n ==> v@[i] == 0,
{
    let mut v: Vec<u8> = Vec::new();
    let mut i: usize = 0;
    while i < n
        invariant
            i <= n,
            v@.len() == i,
            forall|j: int| 0 <= j < i ==> v@[j] == 0,
        decreases n - i,
    {
        v.push(0);
        i = i + 1;
    }
    v
}

// ---------------------------------------------------------------------------
// Encoding
// ---------------------------------------------------------------------------
/// Appends the encoding of one string.
fn encode_string_into(out: &mut Vec<u8>, s: &str)
    ensures
        final(out)@ == old(out)@ + spec_string_bytes(s@),
{
    let ghost orig = out@;
    let len = s.unicode_len();
    let len_bytes = u64_to_le_bytes(len as u64);
    append_bytes(out, len_bytes.as_slice());
    let mut i: usize = 0;
    while i < len
        invariant
            i <= s@.len(),
            len == s@.len(),
            out@ =~= orig + spec_u64_to_le_bytes(s@.len() as u64) + spec_chars_bytes(
                s@.take(i as int),
            ),
        decreases len - i,
    {
        let c = s.get_char(i);
        let cb = u32_to_le_bytes(c as u32);
        append_bytes(out, cb.as_slice());
        i = i + 1;
        proof {
            lemma_chars_bytes_snoc(s@.take(i as int));
            assert(s@.take(i as int).drop_last() =~= s@.take(i - 1));
            assert(s@.take(i as int).last() == s@[i - 1]);
            assert(out@ =~= orig + spec_u64_to_le_bytes(s@.len() as u64) + spec_chars_bytes(
                s@.take(i as int),
            ));
        }
    }
    proof {
        assert(s@.take(s@.len() as int) =~= s@);
    }
}

/// The deterministic encoding of the whole secret map, ready for sealing.
pub fn encode_map(entries: &Vec<(String, String)>) -> (out: Vec<u8>)
    ensures
        out@ == spec_map_bytes(entries@),
{
    let mut out = u64_to_le_bytes(entries.len() as u64);
    let mut i: usize = 0;
    while i < entries.len()
        invariant
            i <= entries@.len(),
            out@ =~= spec_u64_to_le_bytes(entries@.len() as u64) + spec_entries_bytes(
                entries@.take(i as int),
            ),
        decreases entries@.len() - i,
    {
        let e = &entries[i];
        encode_string_into(&mut out, e.0.as_str());
        encode_string_into(&mut out, e.1.as_str());
        i = i + 1;
        proof {
            lemma_entries_bytes_snoc(entries@.take(i as int));
            assert(entries@.take(i as int).drop_last() =~= entries@.take(i - 1));
            assert(entries@.take(i as int).last() == entries@[i - 1]);
            assert(out@ =~= spec_u64_to_le_bytes(entries@.len() as u64) + spec_entries_bytes(
                entries@.take(i as int),
            ));
        }
    }
    proof {
        assert(entries@.take(entries@.len() as int) =~= entries@);
    }
    out
}

// ---------------------------------------------------------------------------
// Decoding
// ---------------------------------------------------------------------------
/// Reads eight little-endian bytes at `pos`; fails only when they are not
/// there.
fn decode_u64(bytes: &[u8], pos: usize) -> (r: Option<(u64, usize)>)
    requires
        pos <= bytes@.len(),
    ensures
        r is Some ==> (r->0).1 == pos + 8 && starts_at(bytes@, pos as int, spec_u64_to_le_bytes((r->0).0)),
        pos + 8 <= bytes@.len() ==> r is Some,
{
    proof {
        lemma_auto_spec_u64_to_from_le_bytes();
    }
    if bytes.len() - pos >= 8 {
        let sub = slice_subrange(bytes, pos, pos + 8);
        let x = u64_from_le_bytes(sub);
        Some((x, pos + 8))
    } else {
        None
    }
}

/// Reads four little-endian bytes at `pos`.
fn decode_u32(bytes: &[u8], pos: usize) -> (r: Option<(u32, usize)>)
    requires
        pos <= bytes@.len(),
    ensures
        r is Some ==> (r->0).1 == pos + 4 && starts_at(bytes@, pos as int, spec_u32_to_le_bytes((r->0).0)),
        pos + 4 <= bytes@.len() ==> r is Some,
{
    proof {
        lemma_auto_spec_u32_to_from_le_bytes();
    }
    if bytes.len() - pos >= 4 {
        let sub = slice_subrange(bytes, pos, pos + 4);
        let x = u32_from_le_bytes(sub);
        Some((x, pos + 4))
    } else {
        None
    }
}

/// Inside an encoded string at `pos`, character `i` occupies the four
/// bytes at offset `8 + 4 * i`.
proof fn lemma_string_char_at(bytes: Seq<u8>, pos: int, t: Seq<char>, i: int)
    requires
        starts_at(bytes, pos, spec_string_bytes(t)),
        0 <= i < t.len(),
    ensures
        bytes.subrange(pos + 8 + 4 * i, pos + 8 + 4 * i + 4) == spec_u32_to_le_bytes(
            t[i] as u32,
        ),
{
    lemma_auto_spec_u64_to_from_le_bytes();
    lemma_chars_bytes_len(t);
    lemma_chars_bytes_index(t, i);
    let sb = spec_string_bytes(t);
    let cb = spec_chars_bytes(t);
    assert(sb == spec_u64_to_le_bytes(t.len() as u64) + cb);
    assert(bytes.subrange(pos, pos + sb.len() as int) == sb);
    assert forall|j: int| 0 <= j < cb.len() implies bytes[pos + 8 + j] == cb[j] by {
        assert(sb[8 + j] == cb[j]);
        assert(bytes.subrange(pos, pos + sb.len() as int)[8 + j] == bytes[pos + 8 + j]);
    }
    assert(bytes.subrange(pos + 8 + 4 * i, pos + 8 + 4 * i + 4) =~= cb.subrange(4 * i, 4 * i + 4));
}

/// An encoded string at `pos` announces its character count in its first
/// eight bytes.
proof fn lemma_string_count_at(bytes: Seq<u8>, pos: int, t: Seq<char>)
    requires
        starts_at(bytes, pos, spec_string_bytes(t)),
    ensures
        pos + 8 <= bytes.len(),
        bytes.subrange(pos, pos + 8) == spec_u64_to_le_bytes(t.len() as u64),
        pos + 8 + 4 * t.len() <= bytes.len(),
{
    lemma_auto_spec_u64_to_from_le_bytes();
    lemma_chars_bytes_len(t);
    assert(bytes.subrange(pos, pos + 8) =~= spec_string_bytes(t).subrange(0, 8));
    assert(spec_string_bytes(t).subrange(0, 8) =~= spec_u64_to_le_bytes(t.len() as u64));
}

/// Reads one encoded string at `pos`.  Succeeds exactly on the encodings
/// that `encode_string_into` produces, and then returns the encoded
/// characters.
fn decode_string(bytes: &[u8], pos: usize) -> (r: Option<(String, usize)>)
    requires
        pos <= bytes@.len(),
    ensures
        r is Some ==> {
            &&& pos <= (r->0).1 <= bytes@.len()
            &&& starts_at(bytes@, pos as int, spec_string_bytes((r->0).0@))
            &&& (r->0).1 == pos + spec_string_bytes((r->0).0@).len()
        },
        forall|t: Seq<char>|
            starts_at(bytes@, pos as int, #[trigger] spec_string_bytes(t)) ==> r is Some
                && (r->0).0@ == t,
{
    proof {
        lemma_auto_spec_u64_to_from_le_bytes();
        lemma_auto_spec_u32_to_from_le_bytes();
    }
    let blen = bytes.len();
    let (n64, p1) = match decode_u64(bytes, pos) {
        Some(x) => x,
        None => {
            proof {
                assert forall|t: Seq<char>|
                    !starts_at(bytes@, pos as int, #[trigger] spec_string_bytes(t)) by {
                    if starts_at(bytes@, pos as int, spec_string_bytes(t)) {
                        lemma_string_count_at(bytes@, pos as int, t);
                    }
                }
            }
            return None;
        },
    };
    proof {
        // Any candidate string must announce exactly the count just read.
        assert forall|t: Seq<char>|
            starts_at(bytes@, pos as int, #[trigger] spec_string_bytes(t)) implies t.len()
            == n64 as nat && p1 + 4 * t.len() <= bytes@.len() by {
            lemma_string_count_at(bytes@, pos as int, t);
            assert(spec_u64_to_le_bytes(t.len() as u64) == spec_u64_to_le_bytes(n64));
            assert(spec_u64_from_le_bytes(spec_u64_to_le_bytes(t.len() as u64))
                == spec_u64_from_le_bytes(spec_u64_to_le_bytes(n64)));
            assert(t.len() as u64 == n64);
            assert(t.len() < blen as nat);
        }
    }
    let remaining = bytes.len() - p1;
    if n64 > (remaining / 4) as u64 {
        return None;
    }
    let n = n64 as usize;
    let mut chars: Vec<char> = Vec::new();
    let mut cur = p1;
    let mut i: usize = 0;
    while i < n
        invariant
            i <= n,
            n == n64,
            pos + 8 == p1,
            cur == p1 + 4 * i,
            p1 + 4 * n <= bytes@.len(),
            chars@.len() == i,
            spec_chars_bytes(chars@) =~= bytes@.subrange(p1 as int, cur as int),
            forall|t: Seq<char>|
                starts_at(bytes@, pos as int, #[trigger] spec_string_bytes(t)) ==> t.len()
                    == n as nat && chars@ == t.take(i as int),
        decreases n - i,
    {
        proof {
            lemma_auto_spec_u32_to_from_le_bytes();
        }
        let (u, p2) = match decode_u32(bytes, cur) {
            Some(x) => x,
            None => {
                proof {
                    assert(false);
                }
                return None;
            },
        };
        proof {
            // Any candidate string has character i here, with the value
            // just read, and a character is always a Unicode scalar.
            assert forall|t: Seq<char>|
                starts_at(bytes@, pos as int, #[trigger] spec_string_bytes(t)) implies t[
                i as int] as u32 == u && (u <= 0x10FFFF && !(0xD800 <= u <= 0xDFFF)) by {
                lemma_string_char_at(bytes@, pos as int, t, i as int);
                assert(spec_u32_to_le_bytes(t[i as int] as u32) == spec_u32_to_le_bytes(u));
                assert(spec_u32_from_le_bytes(spec_u32_to_le_bytes(t[i as int] as u32))
                    == spec_u32_from_le_bytes(spec_u32_to_le_bytes(u)));
                char_is_scalar(t[i as int]);
            }
        }
        let c = match char_from_u32(u) {
            Some(c) => c,
            None => {
                proof {
                    assert forall|t: Seq<char>|
                        !starts_at(bytes@, pos as int, #[trigger] spec_string_bytes(t)) by {
                        if starts_at(bytes@, pos as int, spec_string_bytes(t)) {
                            assert(t[i as int] as u32 == u);
                        }
                    }
                }
                return None;
            },
        };
        let ghost prev_chars = chars@;
        let ghost prev_cur = cur as int;
        chars.push(c);
        cur = p2;
        i = i + 1;
        proof {
            lemma_chars_bytes_snoc(chars@);
            assert(chars@.drop_last() =~= prev_chars);
            assert(chars@.last() == c);
            assert(spec_u32_to_le_bytes(c as u32) == bytes@.subrange(prev_cur, prev_cur + 4));
            assert(bytes@.subrange(p1 as int, cur as int) =~= bytes@.subrange(p1 as int, prev_cur)
                + bytes@.subrange(prev_cur, cur as int));
            assert(spec_chars_bytes(chars@) =~= bytes@.subrange(p1 as int, cur as int));
            assert forall|t: Seq<char>|
                starts_at(bytes@, pos as int, #[trigger] spec_string_bytes(t)) implies chars@
                == t.take(i as int) by {
                assert(prev_chars == t.take(i - 1));
                char_u32_cast(t[i - 1], u);
                char_u32_cast(c, u);
                assert(chars@ =~= t.take(i as int));
            }
        }
    }
    let s = chars_to_string(&chars);
    proof {
        lemma_auto_spec_u64_to_from_le_bytes();
        lemma_chars_bytes_len(chars@);
        assert(bytes@.subrange(pos as int, pos + 8) =~= spec_u64_to_le_bytes(n64));
        assert(s@.len() as u64 == n64);
        assert(bytes@.subrange(pos as int, cur as int) =~= spec_u64_to_le_bytes(s@.len() as u64)
            + spec_chars_bytes(s@));
        assert(starts_at(bytes@, pos as int, spec_string_bytes(s@)));
        assert forall|t: Seq<char>|
            starts_at(bytes@, pos as int, #[trigger] spec_string_bytes(t)) implies s@ == t by {
            assert(t.take(n as int) =~= t);
        }
    }
    Some((s, cur))
}


/// A match of a concatenation is a match of each part in turn.
proof fn lemma_starts_at_concat(bytes: Seq<u8>, pos: int, x: Seq<u8>, y: Seq<u8>)
    requires
        starts_at(bytes, pos, x + y),
    ensures
        starts_at(bytes, pos, x),
        starts_at(bytes, pos + x.len(), y),
{
    let xy = x + y;
    assert(bytes.subrange(pos, pos + xy.len() as int) == xy);
    assert forall|j: int| 0 <= j < x.len() implies bytes[pos + j] == x[j] by {
        assert(bytes.subrange(pos, pos + xy.len() as int)[j] == xy[j]);
    }
    assert forall|j: int| 0 <= j < y.len() implies bytes[pos + x.len() + j] == y[j] by {
        assert(bytes.subrange(pos, pos + xy.len() as int)[x.len() + j] == xy[x.len() + j]);
    }
    assert(bytes.subrange(pos, pos + x.len() as int) =~= x);
    assert(bytes.subrange(pos + x.len(), pos + x.len() + y.len() as int) =~= y);
}

/// Inside an encoded map, entry `i` sits at `cur`: first its name, then
/// its value.
proof fn lemma_map_entry_at(bytes: Seq<u8>, m: Seq<(String, String)>, i: int, cur: int)
    requires
        bytes == spec_map_bytes(m),
        0 <= i < m.len(),
        cur == 8 + spec_entries_bytes(m.take(i)).len(),
    ensures
        starts_at(bytes, cur, spec_string_bytes(m[i].0@)),
        starts_at(bytes, cur + spec_string_bytes(m[i].0@).len(), spec_string_bytes(m[i].1@)),
        cur + spec_entry_bytes(m[i]).len() <= bytes.len(),
{
    lemma_auto_spec_u64_to_from_le_bytes();
    lemma_entries_bytes_split(m, i);
    assert(m.skip(i)[0] == m[i]);
    assert(m.skip(i).drop_first() =~= m.skip(i + 1));
    assert(spec_entries_bytes(m.skip(i)) == spec_entry_bytes(m[i]) + spec_entries_bytes(
        m.skip(i + 1),
    ));
    assert(starts_at(bytes, cur, spec_entry_bytes(m[i]))) by {
        assert(bytes.subrange(cur, cur + spec_entry_bytes(m[i]).len() as int) =~= spec_entry_bytes(
            m[i],
        ));
    }
    lemma_starts_at_concat(bytes, cur, spec_string_bytes(m[i].0@), spec_string_bytes(m[i].1@));
}

/// Decodes a whole encoded secret map.  Succeeds exactly on the bytes that
/// `encode_map` produces from a map with unique names, and then recovers
/// exactly the encoded entries; trailing bytes, malformed counts and
/// duplicate names are all rejected.
pub fn decode_map(bytes: &[u8]) -> (r: Option<Vec<(String, String)>>)
    ensures
        r is Some ==> bytes@ == spec_map_bytes(r->0@) && unique_keys(r->0@),
        forall|m: Seq<(String, String)>|
            bytes@ == #[trigger] spec_map_bytes(m) && unique_keys(m) ==> r is Some && entries_views(
                r->0@,
            ) == entries_views(m),
{
    proof {
        lemma_auto_spec_u64_to_from_le_bytes();
    }
    let blen = bytes.len();
    let (n64, p1) = match decode_u64(bytes, 0) {
        Some(x) => x,
        None => {
            proof {
                assert forall|m: Seq<(String, String)>|
                    bytes@ != #[trigger] spec_map_bytes(m) by {
                    if bytes@ == spec_map_bytes(m) {
                        assert(bytes@.len() >= 8);
                    }
                }
            }
            return None;
        },
    };
    proof {
        // Any candidate map must announce exactly the count just read.
        assert forall|m: Seq<(String, String)>|
            bytes@ == #[trigger] spec_map_bytes(m) implies m.len() == n64 as nat && 16 * m.len()
            <= blen - 8 by {
            lemma_entries_bytes_min_len(m);
            assert(bytes@.subrange(0, 8) =~= spec_u64_to_le_bytes(m.len() as u64));
            assert(spec_u64_to_le_bytes(m.len() as u64) == spec_u64_to_le_bytes(n64));
            assert(spec_u64_from_le_bytes(spec_u64_to_le_bytes(m.len() as u64))
                == spec_u64_from_le_bytes(spec_u64_to_le_bytes(n64)));
            assert(m.len() as u64 == n64);
            assert(m.len() < blen as nat);
        }
    }
    let remaining = blen - p1;
    if n64 > (remaining / 16) as u64 {
        return None;
    }
    let n = n64 as usize;
    let mut out: Vec<(String, String)> = Vec::new();
    let mut cur = p1;
    let mut i: usize = 0;
    while i < n
        invariant
            i <= n,
            n == n64,
            blen == bytes@.len(),
            p1 == 8,
            8 <= cur <= blen,
            out@.len() == i,
            bytes@.subrange(8, cur as int) =~= spec_entries_bytes(out@),
            forall|m: Seq<(String, String)>|
                bytes@ == #[trigger] spec_map_bytes(m) ==> m.len() == n as nat && entries_views(
                    out@,
                ) == entries_views(m.take(i as int)) && cur as int == 8 + spec_entries_bytes(
                    m.take(i as int),
                ).len(),
        decreases n - i,
    {
        let (name, cur2) = match decode_string(bytes, cur) {
            Some(x) => x,
            None => {
                proof {
                    assert forall|m: Seq<(String, String)>|
                        bytes@ != #[trigger] spec_map_bytes(m) by {
                        if bytes@ == spec_map_bytes(m) {
                            lemma_map_entry_at(bytes@, m, i as int, cur as int);
                        }
                    }
                }
                return None;
            },
        };
        let (value, cur3) = match decode_string(bytes, cur2) {
            Some(x) => x,
            None => {
                proof {
                    assert forall|m: Seq<(String, String)>|
                        bytes@ != #[trigger] spec_map_bytes(m) by {
                        if bytes@ == spec_map_bytes(m) {
                            lemma_map_entry_at(bytes@, m, i as int, cur as int);
                        }
                    }
                }
                return None;
            },
        };
        let ghost prev_out = out@;
        let ghost prev_cur = cur as int;
        out.push((name, value));
        cur = cur3;
        i = i + 1;
        proof {
            lemma_entries_bytes_snoc(out@);
            assert(out@.drop_last() =~= prev_out);
            assert(out@.last() == (name, value));
            assert(spec_entry_bytes((name, value)) == spec_string_bytes(name@)
                + spec_string_bytes(value@));
            assert(bytes@.subrange(prev_cur, cur as int) =~= spec_string_bytes(name@)
                + spec_string_bytes(value@));
            assert(bytes@.subrange(8, cur as int) =~= bytes@.subrange(8, prev_cur)
                + bytes@.subrange(prev_cur, cur as int));
            assert(bytes@.subrange(8, cur as int) =~= spec_entries_bytes(out@));
            assert forall|m: Seq<(String, String)>|
                bytes@ == #[trigger] spec_map_bytes(m) implies entries_views(out@)
                == entries_views(m.take(i as int)) && cur as int == 8 + spec_entries_bytes(
                m.take(i as int),
            ).len() by {
                lemma_map_entry_at(bytes@, m, i - 1, prev_cur);
                assert(name@ == m[i - 1].0@);
                assert(value@ == m[i - 1].1@);
                lemma_entries_bytes_snoc(m.take(i as int));
                assert(m.take(i as int).drop_last() =~= m.take(i - 1));
                assert(m.take(i as int).last() == m[i - 1]);
                assert(spec_entry_bytes(m[i - 1]).len() == spec_entry_bytes(
                    (name, value),
                ).len());
                assert(entries_views(prev_out) == entries_views(m.take(i - 1)));
                assert forall|k: int| 0 <= k < i implies entries_views(out@)[k] == entries_views(
                    m.take(i as int),
                )[k] by {
                    if k < i - 1 {
                        assert(entries_views(prev_out)[k] == entries_views(m.take(i - 1))[k]);
                        assert(out@[k] == prev_out[k]);
                        assert(m.take(i as int)[k] == m.take(i - 1)[k]);
                    } else {
                        assert(out@[k] == (name, value));
                        assert(m.take(i as int)[k] == m[i - 1]);
                    }
                }
                assert(entries_views(out@) =~= entries_views(m.take(i as int)));
            }
        }
    }
    if cur != blen {
        proof {
            assert forall|m: Seq<(String, String)>| bytes@ != #[trigger] spec_map_bytes(m) by {
                if bytes@ == spec_map_bytes(m) {
                    assert(m.take(n as int) =~= m);
                }
            }
        }
        return None;
    }
    // Reject duplicate names: the encoder never produces them, and the
    // vault's own invariant depends on their absence.
    let mut a: usize = 0;
    while a < out.len()
        invariant
            blen == bytes@.len(),
            n == n64,
            out@.len() == n,
            cur == blen,
            8 <= blen,
            bytes@.subrange(8, blen as int) =~= spec_entries_bytes(out@),
            forall|x: int, y: int| 0 <= x < y < out@.len() && x < a ==> out@[x].0@ != out@[y].0@,
            forall|m: Seq<(String, String)>|
                bytes@ == #[trigger] spec_map_bytes(m) ==> m.len() == n as nat && entries_views(
                    out@,
                ) == entries_views(m),
        decreases out@.len() - a,
    {
        let mut b: usize = a + 1;
        while b < out.len()
            invariant
                a < b,
                a < out@.len(),
                forall|y: int| a < y < b ==> out@[a as int].0@ != out@[y].0@,
                forall|m: Seq<(String, String)>|
                    bytes@ == #[trigger] spec_map_bytes(m) ==> entries_views(out@)
                        == entries_views(m),
            decreases out@.len() - b,
        {
            if out[a].0.eq(&out[b].0) {
                proof {
                    assert forall|m: Seq<(String, String)>|
                        !(bytes@ == #[trigger] spec_map_bytes(m) && unique_keys(m)) by {
                        if bytes@ == spec_map_bytes(m) && unique_keys(m) {
                            assert(entries_views(out@)[a as int] == entries_views(m)[a as int]);
                            assert(entries_views(out@)[b as int] == entries_views(m)[b as int]);
                            assert(m[a as int].0@ == out@[a as int].0@);
                            assert(m[b as int].0@ == out@[b as int].0@);
                        }
                    }
                }
                return None;
            }
            b = b + 1;
        }
        a = a + 1;
    }
    proof {
        assert(bytes@.subrange(0, 8) =~= spec_u64_to_le_bytes(n64));
        assert(out@.len() as u64 == n64);
        assert(bytes@ =~= spec_u64_to_le_bytes(out@.len() as u64) + spec_entries_bytes(out@));
        assert forall|m: Seq<(String, String)>|
            bytes@ == #[trigger] spec_map_bytes(m) implies entries_views(out@) == entries_views(
            m,
        ) by {
            assert(m.take(n as int) =~= m);
        }
    }
    Some(out)
}


// ---------------------------------------------------------------------------
// The on-disk record
// ---------------------------------------------------------------------------
/// Version tag of the on-disk record format.
pub const RECORD_VERSION: u8 = 1;

/// Byte length of everything before the variable-length ciphertext.
pub const RECORD_HEADER_LEN: usize = 449;

/// The on-disk record: a version byte, the iteration count, the salt, the
/// verifier identifier and credential, the domain tag, the nonce prefix,
/// the nonce counter, the counter used for the present ciphertext, and the
/// length-prefixed ciphertext-and-tag.  The transient derived key and the
/// decrypted secret map never appear here: the only secret bytes in a
/// record are inside the sealed ciphertext.
pub open spec fn spec_record_bytes(c: Pbkdf2Component) -> Seq<u8> {
    seq![RECORD_VERSION] + spec_u32_to_le_bytes(c.pbkdf2_iterations) + c.db_salt_component@
        + c.master_password.0@ + c.master_password.1@ + c.encrypted_passwords.aad@
        + c.encrypted_passwords.nonce_sequence.nonce_bytes@ + spec_u64_to_le_bytes(
        c.encrypted_passwords.nonce_sequence.index,
    ) + spec_u64_to_le_bytes(c.encrypted_passwords.index) + spec_u64_to_le_bytes(
        c.encrypted_passwords.data@.len() as u64,
    ) + c.encrypted_passwords.data@
}

/// Where each field of a well-formed record sits.
proof fn lemma_record_fields(bytes: Seq<u8>, c: Pbkdf2Component)
    requires
        c.wf(),
        bytes == spec_record_bytes(c),
    ensures
        bytes.len() == RECORD_HEADER_LEN + c.encrypted_passwords.data@.len(),
        bytes[0] == RECORD_VERSION,
        bytes.subrange(1, 5) == spec_u32_to_le_bytes(c.pbkdf2_iterations),
        bytes.subrange(5, 133) == c.db_salt_component@,
        bytes.subrange(133, 261) == c.master_password.0@,
        bytes.subrange(261, 293) == c.master_password.1@,
        bytes.subrange(293, 421) == c.encrypted_passwords.aad@,
        bytes.subrange(421, 425) == c.encrypted_passwords.nonce_sequence.nonce_bytes@,
        bytes.subrange(425, 433) == spec_u64_to_le_bytes(
            c.encrypted_passwords.nonce_sequence.index,
        ),
        bytes.subrange(433, 441) == spec_u64_to_le_bytes(c.encrypted_passwords.index),
        bytes.subrange(441, 449) == spec_u64_to_le_bytes(
            c.encrypted_passwords.data@.len() as u64,
        ),
        bytes.subrange(449, bytes.len() as int) == c.encrypted_passwords.data@,
{
    lemma_auto_spec_u32_to_from_le_bytes();
    lemma_auto_spec_u64_to_from_le_bytes();
    assert(bytes.subrange(1, 5) =~= spec_u32_to_le_bytes(c.pbkdf2_iterations));
    assert(bytes.subrange(5, 133) =~= c.db_salt_component@);
    assert(bytes.subrange(133, 261) =~= c.master_password.0@);
    assert(bytes.subrange(261, 293) =~= c.master_password.1@);
    assert(bytes.subrange(293, 421) =~= c.encrypted_passwords.aad@);
    assert(bytes.subrange(421, 425) =~= c.encrypted_passwords.nonce_sequence.nonce_bytes@);
    assert(bytes.subrange(425, 433) =~= spec_u64_to_le_bytes(
        c.encrypted_passwords.nonce_sequence.index,
    ));
    assert(bytes.subrange(433, 441) =~= spec_u64_to_le_bytes(c.encrypted_passwords.index));
    assert(bytes.subrange(441, 449) =~= spec_u64_to_le_bytes(
        c.encrypted_passwords.data@.len() as u64,
    ));
    assert(bytes.subrange(449, bytes.len() as int) =~= c.encrypted_passwords.data@);
}

/// Encodes the persisted fields of a component.  The transient derived
/// key takes no part: two components that differ only in their key encode
/// to the same bytes.
pub fn encode_record(c: &Pbkdf2Component) -> (out: Vec<u8>)
    requires
        c.wf(),
    ensures
        out@ == spec_record_bytes(*c),
{
    let mut out: Vec<u8> = Vec::new();
    out.push(RECORD_VERSION);
    let iter_bytes = u32_to_le_bytes(c.pbkdf2_iterations);
    append_bytes(&mut out, iter_bytes.as_slice());
    append_bytes(&mut out, c.db_salt_component.as_slice());
    append_bytes(&mut out, c.master_password.0.as_slice());
    append_bytes(&mut out, c.master_password.1.as_slice());
    append_bytes(&mut out, c.encrypted_passwords.aad.as_slice());
    append_bytes(&mut out, c.encrypted_passwords.nonce_sequence.nonce_bytes.as_slice());
    let counter_bytes = u64_to_le_bytes(c.encrypted_passwords.nonce_sequence.index);
    append_bytes(&mut out, counter_bytes.as_slice());
    let index_bytes = u64_to_le_bytes(c.encrypted_passwords.index);
    append_bytes(&mut out, index_bytes.as_slice());
    let data_len_bytes = u64_to_le_bytes(c.encrypted_passwords.data.len() as u64);
    append_bytes(&mut out, data_len_bytes.as_slice());
    append_bytes(&mut out, c.encrypted_passwords.data.as_slice());
    proof {
        assert(out@ =~= spec_record_bytes(*c));
    }
    out
}

/// Decodes an on-disk record.  Succeeds exactly on the bytes that
/// `encode_record` produces from a well-formed component, recovering every
/// persisted field; the derived key comes back empty, to be re-derived
/// from a password.  A wrong version byte, a malformed length, a counter
/// ahead of the generator or trailing bytes are all rejected.
pub fn decode_record(bytes: &[u8]) -> (r: Option<Pbkdf2Component>)
    ensures
        r is Some ==> {
            &&& bytes@ == spec_record_bytes(r->0)
            &&& r->0.wf()
            &&& r->0.derived_key@.len() == 0
        },
        forall|c: Pbkdf2Component|
            c.wf() && bytes@ == #[trigger] spec_record_bytes(c) ==> r is Some && (r->0).persisted_eq(
                c,
            ),
{
    proof {
        lemma_auto_spec_u32_to_from_le_bytes();
        lemma_auto_spec_u64_to_from_le_bytes();
        assert forall|c: Pbkdf2Component|
            c.wf() && bytes@ == #[trigger] spec_record_bytes(c) implies bytes@.len()
            >= RECORD_HEADER_LEN && bytes@[0] == RECORD_VERSION by {
            lemma_record_fields(bytes@, c);
        }
    }
    let blen = bytes.len();
    if blen < RECORD_HEADER_LEN {
        return None;
    }
    let version = *vstd::slice::slice_index_get(bytes, 0);
    if version != RECORD_VERSION {
        return None;
    }
    let iterations = u32_from_le_bytes(slice_subrange(bytes, 1, 5));
    if iterations < 1 {
        proof {
            assert forall|c: Pbkdf2Component|
                !(c.wf() && bytes@ == #[trigger] spec_record_bytes(c)) by {
                if c.wf() && bytes@ == spec_record_bytes(c) {
                    lemma_record_fields(bytes@, c);
                    assert(spec_u32_to_le_bytes(c.pbkdf2_iterations) == spec_u32_to_le_bytes(
                        iterations,
                    ));
                    assert(spec_u32_from_le_bytes(spec_u32_to_le_bytes(c.pbkdf2_iterations))
                        == spec_u32_from_le_bytes(spec_u32_to_le_bytes(iterations)));
                }
            }
        }
        return None;
    }
    let db_salt_component = vstd::slice::slice_to_vec(slice_subrange(bytes, 5, 133));
    let verifier_id = vstd::slice::slice_to_vec(slice_subrange(bytes, 133, 261));
    let credential = vstd::slice::slice_to_vec(slice_subrange(bytes, 261, 293));
    let aad = vstd::slice::slice_to_vec(slice_subrange(bytes, 293, 421));
    let nonce_bytes = vstd::slice::slice_to_vec(slice_subrange(bytes, 421, 425));
    let counter = u64_from_le_bytes(slice_subrange(bytes, 425, 433));
    let index = u64_from_le_bytes(slice_subrange(bytes, 433, 441));
    let data_len = u64_from_le_bytes(slice_subrange(bytes, 441, 449));
    proof {
        // Any candidate component agrees with every fixed-width field just
        // read, because little-endian byte strings determine their value.
        assert forall|c: Pbkdf2Component|
            c.wf() && bytes@ == #[trigger] spec_record_bytes(c) implies {
            &&& c.pbkdf2_iterations == iterations
            &&& c.db_salt_component@ == db_salt_component@
            &&& c.master_password.0@ == verifier_id@
            &&& c.master_password.1@ == credential@
            &&& c.encrypted_passwords.aad@ == aad@
            &&& c.encrypted_passwords.nonce_sequence.nonce_bytes@ == nonce_bytes@
            &&& c.encrypted_passwords.nonce_sequence.index == counter
            &&& c.encrypted_passwords.index == index
            &&& c.encrypted_passwords.data@.len() as u64 == data_len
            &&& c.encrypted_passwords.data@.len() == blen - RECORD_HEADER_LEN
            &&& c.encrypted_passwords.data@ == bytes@.subrange(
                RECORD_HEADER_LEN as int,
                blen as int,
            )
        } by {
            lemma_record_fields(bytes@, c);
            assert(spec_u32_from_le_bytes(spec_u32_to_le_bytes(c.pbkdf2_iterations))
                == spec_u32_from_le_bytes(spec_u32_to_le_bytes(iterations)));
            assert(spec_u64_from_le_bytes(spec_u64_to_le_bytes(
                c.encrypted_passwords.nonce_sequence.index,
            )) == spec_u64_from_le_bytes(spec_u64_to_le_bytes(counter)));
            assert(spec_u64_from_le_bytes(spec_u64_to_le_bytes(c.encrypted_passwords.index))
                == spec_u64_from_le_bytes(spec_u64_to_le_bytes(index)));
            assert(spec_u64_from_le_bytes(spec_u64_to_le_bytes(
                c.encrypted_passwords.data@.len() as u64,
            )) == spec_u64_from_le_bytes(spec_u64_to_le_bytes(data_len)));
        }
    }
    if index > counter {
        return None;
    }
    if data_len != (blen - RECORD_HEADER_LEN) as u64 {
        return None;
    }
    let data = vstd::slice::slice_to_vec(slice_subrange(bytes, RECORD_HEADER_LEN, blen));
    let component = Pbkdf2Component {
        pbkdf2_iterations: iterations,
        db_salt_component,
        master_password: (verifier_id, credential),
        derived_key: Vec::new(),
        encrypted_passwords: EncryptedPasswords {
            aad,
            nonce_sequence: CounterNonce { nonce_bytes, index: counter },
            data,
            index,
        },
    };
    proof {
        assert(bytes@ =~= spec_record_bytes(component));
    }
    Some(component)
}

} // verus!
