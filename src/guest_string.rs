//! Guest strings: their length in UTF-16 code units, then the units, two
//! little-endian bytes each.
use vstd::prelude::*;
use crate::abi::{dec_u32, get_u32, lemma_u32_read_back, put_u32, u32_bytes};

verus! {

/// Whether a code unit is a high surrogate.
pub open spec fn is_high(u: u16) -> bool {
    0xD800 <= u && u < 0xDC00
}

/// Whether a code unit is a low surrogate.
pub open spec fn is_low(u: u16) -> bool {
    0xDC00 <= u && u < 0xE000
}

/// The UTF-16 code units of a character: one below 0x10000, else a
/// surrogate pair.
pub open spec fn utf16_char(c: char) -> Seq<u16> {
    let n = c as u32;
    if n < 0x10000 {
        seq![n as u16]
    } else {
        let m = (n - 0x10000) as u32;
        seq![(0xD800 + (m >> 10u32)) as u16, (0xDC00 + (m & 0x3FFu32)) as u16]
    }
}

/// The UTF-16 code units of a character sequence.
pub open spec fn utf16_of(s: Seq<char>) -> Seq<u16>
    decreases s.len(),
{
    if s.len() == 0 {
        Seq::empty()
    } else {
        utf16_char(s[0]) + utf16_of(s.skip(1))
    }
}

/// The scalar value of a character.
pub open spec fn scalar_of(c: char) -> u32 {
    c as u32
}

/// The character whose scalar value is `n`.
pub open spec fn scalar_char(n: u32) -> char {
    choose|c: char| #[trigger] scalar_of(c) == n
}

/// The scalar value of a surrogate pair.
pub open spec fn pair_scalar(hi: u16, lo: u16) -> u32 {
    (0x10000 + (hi - 0xD800) * 1024 + (lo - 0xDC00)) as u32
}

/// The characters of UTF-16 code units, or `None` where a surrogate is not
/// part of a high-low pair.
pub open spec fn dec_utf16(u: Seq<u16>) -> Option<Seq<char>>
    decreases u.len(),
{
    if u.len() == 0 {
        Some(Seq::empty())
    } else if !is_high(u[0]) && !is_low(u[0]) {
        match dec_utf16(u.skip(1)) {
            Some(r) => Some(seq![scalar_char(u[0] as u32)] + r),
            None => None,
        }
    } else if is_high(u[0]) && u.len() >= 2 && is_low(u[1]) {
        match dec_utf16(u.skip(2)) {
            Some(r) => Some(seq![scalar_char(pair_scalar(u[0], u[1]))] + r),
            None => None,
        }
    } else {
        None
    }
}

/// The bytes of code units, each low byte first.
pub open spec fn units_bytes(u: Seq<u16>) -> Seq<u8> {
    Seq::new(2 * u.len(), |j: int| if j % 2 == 0 { (u[j / 2] % 256) as u8 } else { (u[j / 2] / 256) as u8 })
}

/// The code units of bytes taken two at a time, low byte first.
pub open spec fn units_of_bytes(b: Seq<u8>) -> Seq<u16> {
    Seq::new(b.len() / 2, |i: int| (b[2 * i] + 256 * b[2 * i + 1]) as u16)
}

/// A string in guest bytes: the number of code units, then the units.
pub open spec fn string_enc(s: Seq<char>) -> Seq<u8> {
    u32_bytes(utf16_of(s).len() as u32) + units_bytes(utf16_of(s))
}

/// Reads a string at `at`: its characters and the position after it.
pub open spec fn dec_string(b: Seq<u8>, at: int) -> Option<(Seq<char>, int)> {
    match dec_u32(b, at) {
        Some((n, p)) => if p + 2 * n <= b.len() {
            match dec_utf16(units_of_bytes(b.subrange(p, p + 2 * n))) {
                Some(s) => Some((s, p + 2 * n)),
                None => None,
            }
        } else {
            None
        },
        None => None,
    }
}

proof fn lemma_utf16_concat(a: Seq<char>, b: Seq<char>)
    ensures
        utf16_of(a + b) == utf16_of(a) + utf16_of(b),
    decreases a.len(),
{
    if a.len() > 0 {
        assert((a + b).skip(1) =~= a.skip(1) + b);
        lemma_utf16_concat(a.skip(1), b);
        assert((a + b)[0] == a[0]);
        assert(utf16_of(a + b) =~= utf16_of(a) + utf16_of(b));
    } else {
        assert(a + b =~= b);
    }
}

proof fn lemma_utf16_len(s: Seq<char>)
    ensures
        utf16_of(s).len() <= 2 * s.len(),
    decreases s.len(),
{
    if s.len() > 0 {
        lemma_utf16_len(s.skip(1));
    }
}

proof fn lemma_pair_bits(m: u32)
    requires
        m < 0x100000,
    ensures
        (m >> 10u32) < 0x400,
        (m & 0x3FFu32) < 0x400,
        (m >> 10u32) * 1024 + (m & 0x3FFu32) == m,
{
    assert((m >> 10u32) < 0x400) by (bit_vector)
        requires
            m < 0x100000,
    ;
    assert((m & 0x3FFu32) < 0x400) by (bit_vector);
    assert((m >> 10u32) * 1024 + (m & 0x3FFu32) == m) by (bit_vector)
        requires
            m < 0x100000,
    ;
}

proof fn lemma_scalar_char(c: char)
    ensures
        scalar_char(c as u32) == c,
{
    assert(scalar_of(c) == c as u32);
    let d = scalar_char(c as u32);
    assert(scalar_of(d) == c as u32);
}

proof fn lemma_utf16_char_decodes(c: char, rest: Seq<u16>)
    ensures
        dec_utf16(utf16_char(c) + rest) == match dec_utf16(rest) {
            Some(r) => Some(seq![c] + r),
            None => None::<Seq<char>>,
        },
{
    let u = utf16_char(c) + rest;
    let n = c as u32;
    lemma_scalar_char(c);
    if n < 0x10000 {
        assert(u.skip(1) =~= rest);
    } else {
        let m = (n - 0x10000) as u32;
        lemma_pair_bits(m);
        assert(is_high(u[0]) && is_low(u[1]));
        assert(pair_scalar(u[0], u[1]) == n);
        assert(u.skip(2) =~= rest);
    }
}

/// Decoding the UTF-16 code units of a character sequence gives it back.
pub proof fn lemma_utf16_round_trip(s: Seq<char>)
    ensures
        dec_utf16(utf16_of(s)) == Some(s),
    decreases s.len(),
{
    if s.len() > 0 {
        lemma_utf16_round_trip(s.skip(1));
        lemma_utf16_char_decodes(s[0], utf16_of(s.skip(1)));
        assert(seq![s[0]] + s.skip(1) =~= s);
    }
}

proof fn lemma_units_round_trip(u: Seq<u16>)
    ensures
        units_of_bytes(units_bytes(u)) == u,
{
    let b = units_bytes(u);
    assert forall|i: int| 0 <= i < u.len() implies #[trigger] units_of_bytes(b)[i] == u[i] by {
        assert(b[2 * i] == (u[i] % 256) as u8);
        assert(b[2 * i + 1] == (u[i] / 256) as u8);
    }
    assert(units_of_bytes(b) =~= u);
}

/// Reading a string where it was written gives it back, whatever surrounds
/// it.
pub proof fn lemma_string_read_back(pre: Seq<u8>, s: Seq<char>, post: Seq<u8>)
    requires
        utf16_of(s).len() <= u32::MAX,
    ensures
        dec_string(pre + string_enc(s) + post, pre.len() as int) == Some((s, (pre.len() + string_enc(s).len()) as int)),
{
    let u = utf16_of(s);
    let b = pre + string_enc(s) + post;
    assert(b =~= pre + u32_bytes(u.len() as u32) + (units_bytes(u) + post));
    lemma_u32_read_back(pre, u.len() as u32, units_bytes(u) + post);
    let p = pre.len() + 4int;
    assert(b.subrange(p, p + 2 * u.len() as int) =~= units_bytes(u));
    lemma_units_round_trip(u);
    lemma_utf16_round_trip(s);
}

/// Relies on char::from_u32: the character with scalar value `n`, `None`
/// for a surrogate or a value above 0x10FFFF.
#[verifier::external_body]
fn char_from_scalar(n: u32) -> (r: Option<char>)
    ensures
        match r {
            Some(c) => c as u32 == n,
            None => (0xD800 <= n && n < 0xE000) || n > 0x10FFFF,
        },
{
    char::from_u32(n)
}

/// Relies on String::push: appends the character.
#[verifier::external_body]
fn push_char(s: &mut String, c: char)
    ensures
        final(s)@ == old(s)@.push(c),
{
    s.push(c)
}

proof fn lemma_utf16_push(s: Seq<char>, c: char)
    ensures
        utf16_of(s.push(c)) == utf16_of(s) + utf16_char(c),
{
    lemma_utf16_concat(s, seq![c]);
    assert(s + seq![c] =~= s.push(c));
    assert(seq![c].skip(1) =~= Seq::<char>::empty());
    assert(utf16_of(Seq::<char>::empty()) == Seq::<u16>::empty());
    assert(seq![c][0] == c);
    assert(utf16_of(seq![c]) =~= utf16_char(c));
}

/// Appends the UTF-16 code units of a character.
fn push_utf16(units: &mut Vec<u16>, c: char)
    ensures
        final(units)@ == old(units)@ + utf16_char(c),
{
    let n = c as u32;
    if n < 0x10000 {
        units.push(n as u16);
    } else {
        let m = n - 0x10000;
        proof {
            lemma_pair_bits(m);
        }
        units.push((0xD800 + (m >> 10u32)) as u16);
        units.push((0xDC00 + (m & 0x3FFu32)) as u16);
    }
    assert(final(units)@ =~= old(units)@ + utf16_char(c));
}

/// Appends a string.
pub fn put_string(out: &mut Vec<u8>, s: &str)
    requires
        s@.len() <= 0x7FFF_FFFF,
    ensures
        final(out)@ == old(out)@ + string_enc(s@),
{
    let mut units: Vec<u16> = Vec::new();
    proof {
        broadcast use vstd::string::axiom_spec_iter;
        lemma_utf16_len(s@);
    }
    for c in it: s.chars()
        invariant
            it.seq() == s@,
            units@ == utf16_of(it.seq().take(it.index() as int)),
    {
        let ghost k = it.index() as int;
        proof {
            assert(it.seq().take(k + 1) =~= it.seq().take(k).push(c));
            lemma_utf16_push(it.seq().take(k), c);
        }
        push_utf16(&mut units, c);
        assert(units@ =~= utf16_of(it.seq().take(k)) + utf16_char(c));
    }
    assert(s@.take(s@.len() as int) =~= s@);
    let ghost u = units@;
    put_u32(out, units.len() as u32);
    let ghost mid = out@;
    let mut i: usize = 0;
    while i < units.len()
        invariant
            i <= units@.len(),
            units@ == u,
            out@ == mid + units_bytes(u.take(i as int)),
        decreases units@.len() - i,
    {
        let x = units[i];
        out.push((x % 256) as u8);
        out.push((x / 256) as u8);
        i = i + 1;
        assert(out@ =~= mid + units_bytes(u.take(i as int)));
    }
    assert(u.take(u.len() as int) =~= u);
    assert(final(out)@ =~= old(out)@ + string_enc(s@));
}

/// Reads a string at `at`; `None` when the bytes run out or the code units
/// are not valid UTF-16.
pub fn get_string(b: &Vec<u8>, at: usize) -> (r: Option<(String, usize)>)
    ensures
        match r {
            Some((t, q)) => dec_string(b@, at as int) == Some((t@, q as int)),
            None => dec_string(b@, at as int) is None,
        },
{
    let (n, p) = match get_u32(b, at) {
        Some(x) => x,
        None => return None,
    };
    if (b.len() - p) / 2 < n as usize {
        return None;
    }
    let end = p + 2 * (n as usize);
    let ghost bytes = b@.subrange(p as int, end as int);
    let mut units: Vec<u16> = Vec::new();
    let mut k: usize = 0;
    while k < n as usize
        invariant
            k <= n,
            dec_u32(b@, at as int) == Some((n, p as int)),
            end == p + 2 * n,
            end <= b@.len(),
            bytes == b@.subrange(p as int, end as int),
            units@ == units_of_bytes(bytes).take(k as int),
        decreases n - k,
    {
        let lo = b[p + 2 * k];
        let hi = b[p + 2 * k + 1];
        units.push((lo as u16) + 256 * (hi as u16));
        k = k + 1;
        assert(units@ =~= units_of_bytes(bytes).take(k as int));
    }
    assert(units@ =~= units_of_bytes(bytes));
    let ghost u = units@;
    let mut out = String::new();
    let mut i: usize = 0;
    while i < units.len()
        invariant
            i <= units@.len(),
            units@ == u,
            dec_u32(b@, at as int) == Some((n, p as int)),
            end == p + 2 * n,
            end <= b@.len(),
            u == units_of_bytes(b@.subrange(p as int, end as int)),
            dec_utf16(u) == match dec_utf16(u.skip(i as int)) {
                Some(rest) => Some(out@ + rest),
                None => None::<Seq<char>>,
            },
        decreases units@.len() - i,
    {
        let x = units[i];
        let ghost tail = u.skip(i as int);
        assert(tail[0] == x);
        if !(0xD800 <= x && x < 0xE000) {
            let c = match char_from_scalar(x as u32) {
                Some(c) => c,
                None => return None,
            };
            proof {
                lemma_scalar_char(c);
                assert(tail.skip(1) =~= u.skip(i + 1));
                assert(out@.push(c) + dec_utf16(u.skip(i + 1))->0 =~= out@ + (seq![c] + dec_utf16(u.skip(i + 1))->0)) by {
                    if dec_utf16(u.skip(i + 1)) is Some {
                    }
                }
            }
            push_char(&mut out, c);
            i = i + 1;
        } else if x < 0xDC00 && i + 1 < units.len() && 0xDC00 <= units[i + 1] && units[i + 1] < 0xE000 {
            let y = units[i + 1];
            assert(tail[1] == y);
            let scalar = 0x10000 + ((x - 0xD800) as u32) * 1024 + ((y - 0xDC00) as u32);
            let c = match char_from_scalar(scalar) {
                Some(c) => c,
                None => return None,
            };
            proof {
                lemma_scalar_char(c);
                assert(pair_scalar(x, y) == scalar);
                assert(tail.skip(2) =~= u.skip(i + 2));
                assert(out@.push(c) + dec_utf16(u.skip(i + 2))->0 =~= out@ + (seq![c] + dec_utf16(u.skip(i + 2))->0)) by {
                    if dec_utf16(u.skip(i + 2)) is Some {
                    }
                }
            }
            push_char(&mut out, c);
            i = i + 2;
        } else {
            proof {
                if i + 1 < u.len() {
                    assert(tail[1] == u[i + 1]);
                }
                assert(dec_utf16(tail) is None);
                assert(dec_utf16(u) is None);
                assert(dec_u32(b@, at as int) == Some((n, p as int)));
                assert(p + 2 * n <= b@.len());
                assert(units_of_bytes(b@.subrange(p as int, p + 2 * n)) == u);
            }
            return None;
        }
    }
    proof {
        assert(u.skip(u.len() as int) =~= Seq::<u16>::empty());
        assert(out@ + Seq::<char>::empty() =~= out@);
    }
    Some((out, end))
}

} // verus!
