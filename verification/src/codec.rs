//! The canonical byte layout shared by every record that leaves the process:
//! integers are little-endian, byte strings carry their length in front, and
//! optional fields are introduced by a one-byte tag.
//!
//! Each layout is given twice: as a spec function from a value to its bytes,
//! and as a spec parser that reads a value at a position and says where the
//! next one starts. The lemmas at the end of each section tie the two
//! together in both directions.

use vstd::prelude::*;
use vstd::bytes::*;
use vstd::slice::*;

verus! {

/// A parse result: the value read and the position just behind it.
pub type Parsed<T> = Option<(T, int)>;

/// The bytes `e` stand in `s` at position `pos`.
pub open spec fn stands_at(s: Seq<u8>, pos: int, e: Seq<u8>) -> bool {
    &&& 0 <= pos
    &&& pos + e.len() <= s.len()
    &&& s.subrange(pos, pos + e.len()) == e
}

/// Where `x + y` stands, `x` stands first and `y` right behind it.
pub proof fn lemma_stands_split(s: Seq<u8>, pos: int, x: Seq<u8>, y: Seq<u8>)
    requires
        stands_at(s, pos, x + y),
    ensures
        stands_at(s, pos, x),
        stands_at(s, pos + x.len(), y),
{
    let whole = s.subrange(pos, pos + (x + y).len());
    assert(s.subrange(pos, pos + x.len()) =~= whole.subrange(0, x.len() as int));
    assert(whole.subrange(0, x.len() as int) =~= x);
    assert(s.subrange(pos + x.len(), pos + x.len() + y.len()) =~= whole.subrange(
        x.len() as int,
        (x + y).len() as int,
    ));
    assert(whole.subrange(x.len() as int, (x + y).len() as int) =~= y);
}

/// Where `x` stands, with `y` right behind it, `x + y` stands.
pub proof fn lemma_stands_join(s: Seq<u8>, pos: int, x: Seq<u8>, y: Seq<u8>)
    requires
        stands_at(s, pos, x),
        stands_at(s, pos + x.len(), y),
    ensures
        stands_at(s, pos, x + y),
{
    assert(s.subrange(pos, pos + (x + y).len()) =~= s.subrange(pos, pos + x.len()) + s.subrange(
        pos + x.len(),
        pos + x.len() + y.len(),
    ));
}

/// A byte string stands at the front of itself.
pub proof fn lemma_stands_whole(s: Seq<u8>)
    ensures
        stands_at(s, 0, s),
{
    assert(s.subrange(0, s.len() as int) =~= s);
}

/// The eight little-endian bytes of `v`.
pub open spec fn enc_u64(v: u64) -> Seq<u8> {
    spec_u64_to_le_bytes(v)
}

/// Reads eight little-endian bytes at `pos`.
pub open spec fn parse_u64(s: Seq<u8>, pos: int) -> Parsed<u64> {
    if 0 <= pos && pos + 8 <= s.len() {
        Some((spec_u64_from_le_bytes(s.subrange(pos, pos + 8)), pos + 8))
    } else {
        None
    }
}

/// An encoded `u64` takes eight bytes.
pub proof fn lemma_enc_u64_len(v: u64)
    ensures
        enc_u64(v).len() == 8,
{
    lemma_auto_spec_u64_to_from_le_bytes();
}

/// What was written with [`enc_u64`] is read back, wherever it stands.
pub proof fn lemma_parse_u64_of_enc(s: Seq<u8>, pos: int, v: u64)
    requires
        stands_at(s, pos, enc_u64(v)),
    ensures
        parse_u64(s, pos) == Some((v, pos + 8)),
{
    lemma_auto_spec_u64_to_from_le_bytes();
}

/// What [`parse_u64`] reads is the encoding of the value it returns.
pub proof fn lemma_enc_u64_of_parse(s: Seq<u8>, pos: int)
    requires
        parse_u64(s, pos) is Some,
    ensures
        ({
            let (v, next) = parse_u64(s, pos).unwrap();
            stands_at(s, pos, enc_u64(v)) && next == pos + 8
        }),
{
    lemma_auto_spec_u64_to_from_le_bytes();
}

/// Appends the little-endian bytes of `v`.
pub fn put_u64(out: &mut Vec<u8>, v: u64)
    ensures
        final(out)@ == old(out)@ + enc_u64(v),
{
    let mut bytes = u64_to_le_bytes(v);
    out.append(&mut bytes);
}

/// Reads a little-endian `u64` at `pos`, if eight bytes are left.
pub fn get_u64(input: &[u8], pos: usize) -> (r: Option<(u64, usize)>)
    ensures
        match r {
            Some((v, next)) => parse_u64(input@, pos as int) == Some((v, next as int)),
            None => parse_u64(input@, pos as int) is None,
        },
{
    if pos > input.len() || input.len() - pos < 8 {
        return None;
    }
    let v = u64_from_le_bytes(slice_subrange(input, pos, pos + 8));
    Some((v, pos + 8))
}

/// A byte string with its length in front.
pub open spec fn enc_bytes(b: Seq<u8>) -> Seq<u8> {
    enc_u64(b.len() as u64) + b
}

/// Reads a length and then that many bytes.
pub open spec fn parse_bytes(s: Seq<u8>, pos: int) -> Parsed<Seq<u8>> {
    match parse_u64(s, pos) {
        Some((n, start)) => if start + n <= s.len() {
            Some((s.subrange(start, start + n), start + n))
        } else {
            None
        },
        None => None,
    }
}

/// What was written with [`enc_bytes`] is read back, wherever it stands.
pub proof fn lemma_parse_bytes_of_enc(s: Seq<u8>, pos: int, b: Seq<u8>)
    requires
        b.len() <= u64::MAX,
        stands_at(s, pos, enc_bytes(b)),
    ensures
        parse_bytes(s, pos) == Some((b, pos + enc_bytes(b).len())),
        enc_bytes(b).len() == 8 + b.len(),
{
    let n = b.len() as u64;
    lemma_enc_u64_len(n);
    lemma_stands_split(s, pos, enc_u64(n), b);
    lemma_parse_u64_of_enc(s, pos, n);
}

/// What [`parse_bytes`] reads is the encoding of the value it returns.
pub proof fn lemma_enc_bytes_of_parse(s: Seq<u8>, pos: int)
    requires
        parse_bytes(s, pos) is Some,
    ensures
        ({
            let (b, next) = parse_bytes(s, pos).unwrap();
            &&& stands_at(s, pos, enc_bytes(b))
            &&& next == pos + enc_bytes(b).len()
            &&& b.len() <= u64::MAX
        }),
{
    let (n, start) = parse_u64(s, pos).unwrap();
    let b = s.subrange(start, start + n);
    lemma_enc_u64_of_parse(s, pos);
    lemma_enc_u64_len(n);
    assert(b.len() as u64 == n);
    lemma_stands_join(s, pos, enc_u64(n), b);
}

/// Reads exactly `n` bytes.
pub open spec fn parse_fixed(s: Seq<u8>, pos: int, n: int) -> Parsed<Seq<u8>> {
    if 0 <= pos && 0 <= n && pos + n <= s.len() {
        Some((s.subrange(pos, pos + n), pos + n))
    } else {
        None
    }
}

/// What was written raw is read back by [`parse_fixed`] with its length.
pub proof fn lemma_parse_fixed_of_enc(s: Seq<u8>, pos: int, b: Seq<u8>)
    requires
        stands_at(s, pos, b),
    ensures
        parse_fixed(s, pos, b.len() as int) == Some((b, pos + b.len())),
{
}

/// What [`parse_fixed`] reads stands where it was read.
pub proof fn lemma_enc_fixed_of_parse(s: Seq<u8>, pos: int, n: int)
    requires
        parse_fixed(s, pos, n) is Some,
    ensures
        ({
            let (b, next) = parse_fixed(s, pos, n).unwrap();
            &&& stands_at(s, pos, b)
            &&& b.len() == n
            &&& next == pos + n
        }),
{
}

/// An optional byte string: a zero byte, or a one byte and the string with
/// its length in front.
pub open spec fn enc_opt_bytes(o: Option<Seq<u8>>) -> Seq<u8> {
    match o {
        None => seq![0u8],
        Some(b) => seq![1u8] + enc_bytes(b),
    }
}

/// Reads a tag byte and, behind a one, a length-prefixed byte string.
pub open spec fn parse_opt_bytes(s: Seq<u8>, pos: int) -> Parsed<Option<Seq<u8>>> {
    if 0 <= pos < s.len() {
        if s[pos] == 0 {
            Some((None, pos + 1))
        } else if s[pos] == 1 {
            match parse_bytes(s, pos + 1) {
                Some((b, next)) => Some((Some(b), next)),
                None => None,
            }
        } else {
            None
        }
    } else {
        None
    }
}

/// What was written with [`enc_opt_bytes`] is read back, wherever it stands.
pub proof fn lemma_parse_opt_bytes_of_enc(s: Seq<u8>, pos: int, o: Option<Seq<u8>>)
    requires
        o matches Some(b) ==> b.len() <= u64::MAX,
        stands_at(s, pos, enc_opt_bytes(o)),
    ensures
        parse_opt_bytes(s, pos) == Some((o, pos + enc_opt_bytes(o).len())),
{
    let e = enc_opt_bytes(o);
    assert(s[pos] == s.subrange(pos, pos + e.len())[0]);
    match o {
        None => {},
        Some(b) => {
            lemma_stands_split(s, pos, seq![1u8], enc_bytes(b));
            lemma_parse_bytes_of_enc(s, pos + 1, b);
        },
    }
}

/// What [`parse_opt_bytes`] reads is the encoding of the value it returns.
pub proof fn lemma_enc_opt_bytes_of_parse(s: Seq<u8>, pos: int)
    requires
        parse_opt_bytes(s, pos) is Some,
    ensures
        ({
            let (o, next) = parse_opt_bytes(s, pos).unwrap();
            &&& stands_at(s, pos, enc_opt_bytes(o))
            &&& next == pos + enc_opt_bytes(o).len()
            &&& o matches Some(b) ==> b.len() <= u64::MAX
        }),
{
    if s[pos] == 0 {
        assert(s.subrange(pos, pos + 1) =~= seq![0u8]);
    } else {
        assert(s.subrange(pos, pos + 1) =~= seq![1u8]);
        lemma_enc_bytes_of_parse(s, pos + 1);
        let (b, next) = parse_bytes(s, pos + 1).unwrap();
        lemma_stands_join(s, pos, seq![1u8], enc_bytes(b));
    }
}

/// An optional byte string of known length: a zero byte, or a one byte and
/// the string.
pub open spec fn enc_opt_fixed(o: Option<Seq<u8>>) -> Seq<u8> {
    match o {
        None => seq![0u8],
        Some(b) => seq![1u8] + b,
    }
}

/// Reads a tag byte and, behind a one, exactly `n` bytes.
pub open spec fn parse_opt_fixed(s: Seq<u8>, pos: int, n: int) -> Parsed<Option<Seq<u8>>> {
    if 0 <= pos < s.len() {
        if s[pos] == 0 {
            Some((None, pos + 1))
        } else if s[pos] == 1 {
            match parse_fixed(s, pos + 1, n) {
                Some((b, next)) => Some((Some(b), next)),
                None => None,
            }
        } else {
            None
        }
    } else {
        None
    }
}

/// What was written with [`enc_opt_fixed`] is read back, wherever it stands.
pub proof fn lemma_parse_opt_fixed_of_enc(s: Seq<u8>, pos: int, o: Option<Seq<u8>>, n: int)
    requires
        o matches Some(b) ==> b.len() == n,
        stands_at(s, pos, enc_opt_fixed(o)),
    ensures
        parse_opt_fixed(s, pos, n) == Some((o, pos + enc_opt_fixed(o).len())),
{
    let e = enc_opt_fixed(o);
    assert(s[pos] == s.subrange(pos, pos + e.len())[0]);
    match o {
        None => {},
        Some(b) => {
            lemma_stands_split(s, pos, seq![1u8], b);
        },
    }
}

/// What [`parse_opt_fixed`] reads is the encoding of the value it returns.
pub proof fn lemma_enc_opt_fixed_of_parse(s: Seq<u8>, pos: int, n: int)
    requires
        parse_opt_fixed(s, pos, n) is Some,
    ensures
        ({
            let (o, next) = parse_opt_fixed(s, pos, n).unwrap();
            &&& stands_at(s, pos, enc_opt_fixed(o))
            &&& next == pos + enc_opt_fixed(o).len()
            &&& o matches Some(b) ==> b.len() == n
        }),
{
    if s[pos] == 0 {
        assert(s.subrange(pos, pos + 1) =~= seq![0u8]);
    } else {
        assert(s.subrange(pos, pos + 1) =~= seq![1u8]);
        let (b, next) = parse_fixed(s, pos + 1, n).unwrap();
        lemma_stands_join(s, pos, seq![1u8], b);
    }
}

/// Appends `b` with its length in front.
pub fn put_bytes(out: &mut Vec<u8>, b: &[u8])
    ensures
        final(out)@ == old(out)@ + enc_bytes(b@),
{
    let ghost before = out@;
    put_u64(out, b.len() as u64);
    out.extend_from_slice(b);
    assert(out@ =~= before + enc_bytes(b@));
}

/// Appends `b` as it is.
pub fn put_raw(out: &mut Vec<u8>, b: &[u8])
    ensures
        final(out)@ == old(out)@ + b@,
{
    out.extend_from_slice(b);
}

/// Reads a length-prefixed byte string at `pos`.
pub fn get_bytes(input: &[u8], pos: usize) -> (r: Option<(Vec<u8>, usize)>)
    ensures
        match r {
            Some((b, next)) => parse_bytes(input@, pos as int) == Some((b@, next as int)),
            None => parse_bytes(input@, pos as int) is None,
        },
{
    match get_u64(input, pos) {
        None => None,
        Some((n, start)) => {
            if n > (input.len() - start) as u64 {
                return None;
            }
            let end = start + n as usize;
            let b = slice_to_vec(slice_subrange(input, start, end));
            Some((b, end))
        },
    }
}

/// Reads exactly `n` bytes at `pos`.
pub fn get_raw(input: &[u8], pos: usize, n: usize) -> (r: Option<(Vec<u8>, usize)>)
    ensures
        match r {
            Some((b, next)) => parse_fixed(input@, pos as int, n as int) == Some(
                (b@, next as int),
            ),
            None => parse_fixed(input@, pos as int, n as int) is None,
        },
{
    if pos > input.len() || input.len() - pos < n {
        return None;
    }
    let b = slice_to_vec(slice_subrange(input, pos, pos + n));
    Some((b, pos + n))
}

/// Appends an optional byte string behind its tag.
pub fn put_opt_bytes(out: &mut Vec<u8>, o: &Option<Vec<u8>>)
    ensures
        final(out)@ == old(out)@ + enc_opt_bytes(
            match *o {
                Some(b) => Some(b@),
                None => None,
            },
        ),
{
    let ghost before = out@;
    match o {
        None => {
            out.push(0u8);
            assert(out@ =~= before + seq![0u8]);
        },
        Some(b) => {
            out.push(1u8);
            put_bytes(out, b.as_slice());
            assert(out@ =~= before + (seq![1u8] + enc_bytes(b@)));
        },
    }
}

/// Reads an optional byte string at `pos`.
pub fn get_opt_bytes(input: &[u8], pos: usize) -> (r: Option<(Option<Vec<u8>>, usize)>)
    ensures
        match r {
            Some((o, next)) => parse_opt_bytes(input@, pos as int) == Some(
                (
                    match o {
                        Some(b) => Some(b@),
                        None => None,
                    },
                    next as int,
                ),
            ),
            None => parse_opt_bytes(input@, pos as int) is None,
        },
{
    if pos >= input.len() {
        return None;
    }
    let tag = input[pos];
    if tag == 0 {
        Some((None, pos + 1))
    } else if tag == 1 {
        match get_bytes(input, pos + 1) {
            Some((b, next)) => Some((Some(b), next)),
            None => None,
        }
    } else {
        None
    }
}

/// Copies thirty-two bytes into an array.
pub fn to_array32(b: &[u8]) -> (a: [u8; 32])
    requires
        b@.len() == 32,
    ensures
        a@ == b@,
{
    let mut a = [0u8; 32];
    let mut i: usize = 0;
    while i < 32
        invariant
            i <= 32,
            b@.len() == 32,
            forall|j: int| 0 <= j < i ==> a@[j] == b@[j],
        decreases 32 - i,
    {
        a[i] = b[i];
        i += 1;
    }
    assert(a@ =~= b@);
    a
}

/// Whether two byte strings are the same.
pub fn bytes_eq(a: &[u8], b: &[u8]) -> (same: bool)
    ensures
        same == (a@ == b@),
{
    if a.len() != b.len() {
        return false;
    }
    let mut i: usize = 0;
    while i < a.len()
        invariant
            i <= a.len(),
            a@.len() == b@.len(),
            forall|j: int| 0 <= j < i ==> a@[j] == b@[j],
        decreases a.len() - i,
    {
        if a[i] != b[i] {
            return false;
        }
        i += 1;
    }
    assert(a@ =~= b@);
    true
}

} // verus!
