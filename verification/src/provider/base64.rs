//! Standard base64: which payloads are accepted, and the one way in which each
//! is written.
use vstd::prelude::*;
use vstd::string::*;

use crate::text;

verus! {

/// The characters that stand for six bits.
pub open spec fn in_alphabet(c: char) -> bool {
    'A' <= c <= 'Z' || 'a' <= c <= 'z' || '0' <= c <= '9' || c == '+' || c == '/'
}

/// The six bits that a character stands for; none for any other.
#[verifier::opaque]
pub open spec fn sextet(c: char) -> int {
    if 'A' <= c <= 'Z' {
        c as int - 'A' as int
    } else if 'a' <= c <= 'z' {
        c as int - 'a' as int + 26
    } else if '0' <= c <= '9' {
        c as int - '0' as int + 52
    } else if c == '+' {
        62
    } else if c == '/' {
        63
    } else {
        0
    }
}

/// The character for six bits.
#[verifier::opaque]
pub open spec fn symbol(n: int) -> char {
    if n < 26 {
        ('A' as int + n) as char
    } else if n < 52 {
        ('a' as int + n - 26) as char
    } else if n < 62 {
        ('0' as int + n - 52) as char
    } else if n == 62 {
        '+'
    } else {
        '/'
    }
}

/// The 24 bits of four characters.
pub open spec fn quad_value(q: Seq<char>) -> int {
    sextet(q[0]) * 262144 + sextet(q[1]) * 4096 + sextet(q[2]) * 64 + sextet(q[3])
}

/// The bytes of four characters: one, and one more for each of the last two
/// that is no padding.
pub open spec fn quad_bytes(q: Seq<char>) -> Seq<u8> {
    let v = quad_value(q);
    let first = seq![(v / 65536) as u8];
    let second = if q[2] != '=' {
        first.push(((v / 256) % 256) as u8)
    } else {
        first
    };
    if q[3] != '=' {
        second.push((v % 256) as u8)
    } else {
        second
    }
}

/// The bytes that characters stand for, four by four.
pub open spec fn decoded(s: Seq<char>) -> Seq<u8>
    decreases s.len(),
{
    if s.len() < 4 {
        Seq::empty()
    } else {
        decoded(s.take(s.len() - 4)) + quad_bytes(s.skip(s.len() - 4))
    }
}

/// The four characters of one to three bytes.
pub open spec fn group(b: Seq<u8>) -> Seq<char> {
    let v = b[0] * 65536 + (if b.len() >= 2 {
        b[1] as int
    } else {
        0
    }) * 256 + (if b.len() >= 3 {
        b[2] as int
    } else {
        0
    });
    seq![
        symbol(v / 262144),
        symbol((v / 4096) % 64),
        if b.len() >= 2 {
            symbol((v / 64) % 64)
        } else {
            '='
        },
        if b.len() >= 3 {
            symbol(v % 64)
        } else {
            '='
        },
    ]
}

/// The characters of bytes in threes.
pub open spec fn encoded_threes(b: Seq<u8>) -> Seq<char>
    decreases b.len(),
{
    if b.len() < 3 {
        Seq::empty()
    } else {
        encoded_threes(b.take(b.len() - 3)) + group(b.skip(b.len() - 3))
    }
}

/// Bytes in standard base64, with padding.
pub open spec fn encoded(b: Seq<u8>) -> Seq<char> {
    let whole = b.len() - b.len() % 3;
    if b.len() % 3 == 0 {
        encoded_threes(b)
    } else {
        encoded_threes(b.take(whole)) + group(b.skip(whole))
    }
}

/// Whether a payload is accepted: characters in fours, all of them from the
/// alphabet or padding, and before two paddings one of five: `A`, `Q`, `g` and `w`,
/// which leave no bits over, and `a`, whose bits that are over are dropped.
pub open spec fn acceptable(s: Seq<char>) -> bool {
    &&& s.len() > 0
    &&& s.len() % 4 == 0
    &&& forall|i: int| 0 <= i < s.len() ==> in_alphabet(#[trigger] s[i]) || s[i] == '='
    &&& (s[s.len() - 1] == '=' && s[s.len() - 2] == '=') ==> {
        let c = s[s.len() - 3];
        c == 'A' || c == 'a' || c == 'Q' || c == 'g' || c == 'w'
    }
}

/// The one way in which an accepted payload is written.
pub open spec fn normalized(s: Seq<char>) -> Seq<char> {
    encoded(decoded(s))
}

proof fn lemma_symbol(n: int)
    requires
        0 <= n < 64,
    ensures
        in_alphabet(symbol(n)),
        symbol(n) != '=',
        sextet(symbol(n)) == n,
{
    reveal(sextet);
    reveal(symbol);
}

proof fn lemma_sextet(c: char)
    ensures
        0 <= sextet(c) < 64,
        c == '=' ==> sextet(c) == 0,
{
    reveal(sextet);
}

/// The bits of three bytes, by sixes and by eights.
proof fn lemma_bits(x: u32, y: u32, z: u32, v: u32)
    by (bit_vector)
    requires
        x < 256,
        y < 256,
        z < 256,
        v == x * 65536 + y * 256 + z,
    ensures
        v / 262144 < 64,
        v == (v / 262144) * 262144 + ((v / 4096) % 64) * 4096 + ((v / 64) % 64) * 64 + v % 64,
        v / 65536 == x,
        (v / 256) % 256 == y,
        v % 256 == z,
        z == 0 ==> v % 64 == 0,
        y == 0 && z == 0 ==> (v / 64) % 64 == 0 && (v / 4096) % 64 == 16 * (x % 4),
{
}

proof fn lemma_last_symbols(n: int)
    requires
        n == 0 || n == 16 || n == 32 || n == 48,
    ensures
        symbol(n) == 'A' || symbol(n) == 'Q' || symbol(n) == 'g' || symbol(n) == 'w',
{
    reveal(symbol);
}

/// Four characters of a group give its bytes back.
proof fn lemma_group(b: Seq<u8>)
    requires
        1 <= b.len() <= 3,
    ensures
        quad_bytes(group(b)) == b,
        group(b).len() == 4,
        forall|i: int| 0 <= i < 4 ==> in_alphabet(#[trigger] group(b)[i]) || group(b)[i] == '=',
        in_alphabet(group(b)[0]),
        in_alphabet(group(b)[1]),
        b.len() == 1 ==> (group(b)[1] == 'A' || group(b)[1] == 'Q' || group(b)[1] == 'g'
            || group(b)[1] == 'w'),
        b.len() >= 2 ==> in_alphabet(group(b)[2]) && group(b)[2] != '=',
        b.len() >= 3 ==> in_alphabet(group(b)[3]) && group(b)[3] != '=',
{
    let x = b[0] as int;
    let y = if b.len() >= 2 { b[1] as int } else { 0 };
    let z = if b.len() >= 3 { b[2] as int } else { 0 };
    let v = x * 65536 + y * 256 + z;
    lemma_bits(x as u32, y as u32, z as u32, v as u32);
    lemma_symbol(v / 262144);
    lemma_symbol((v / 4096) % 64);
    lemma_symbol((v / 64) % 64);
    lemma_symbol(v % 64);
    lemma_sextet('=');
    if b.len() == 1 {
        lemma_last_symbols((v / 4096) % 64);
    }
    let q = group(b);
    assert(quad_value(q) == v);
    assert(quad_bytes(q) =~= b);
}

proof fn lemma_decoded_append(s: Seq<char>, q: Seq<char>)
    requires
        q.len() == 4,
    ensures
        decoded(s + q) == decoded(s) + quad_bytes(q),
{
    let whole = s + q;
    assert(whole.take(whole.len() - 4) =~= s);
    assert(whole.skip(whole.len() - 4) =~= q);
}

proof fn lemma_threes(b: Seq<u8>)
    requires
        b.len() % 3 == 0,
    ensures
        decoded(encoded_threes(b)) == b,
        encoded_threes(b).len() == b.len() / 3 * 4,
        forall|i: int|
            0 <= i < encoded_threes(b).len() ==> in_alphabet(#[trigger] encoded_threes(b)[i]),
    decreases b.len(),
{
    if b.len() == 0 {
        assert(decoded(encoded_threes(b)) =~= b);
    } else {
        let head = b.take(b.len() - 3);
        let tail = b.skip(b.len() - 3);
        lemma_threes(head);
        lemma_group(tail);
        lemma_decoded_append(encoded_threes(head), group(tail));
        assert(head + tail =~= b);
        let all = encoded_threes(b);
        assert forall|i: int| 0 <= i < all.len() implies in_alphabet(#[trigger] all[i]) by {
            if i < encoded_threes(head).len() {
                assert(all[i] == encoded_threes(head)[i]);
            } else {
                assert(all[i] == group(tail)[i - encoded_threes(head).len()]);
            }
        }
    }
}

/// Bytes in base64 read back as themselves, and are accepted.
pub proof fn law_encoding_reads_back(b: Seq<u8>)
    ensures
        decoded(encoded(b)) == b,
        b.len() > 0 ==> acceptable(encoded(b)),
{
    let rest = b.len() % 3;
    let head = b.take(b.len() - rest);
    let tail = b.skip(b.len() - rest);
    lemma_threes(head);
    assert(head + tail =~= b);
    if rest == 0 {
        assert(head =~= b);
    } else {
        lemma_group(tail);
        lemma_decoded_append(encoded_threes(head), group(tail));
        let all = encoded(b);
        assert forall|i: int| 0 <= i < all.len() implies in_alphabet(#[trigger] all[i]) || all[i]
            == '=' by {
            if i < encoded_threes(head).len() {
                assert(all[i] == encoded_threes(head)[i]);
            } else {
                assert(all[i] == group(tail)[i - encoded_threes(head).len()]);
            }
        }
        assert(all[all.len() - 1] == group(tail)[3]);
        assert(all[all.len() - 2] == group(tail)[2]);
        assert(all[all.len() - 3] == group(tail)[1]);
    }
}

/// An accepted payload stands for at least one byte.
proof fn lemma_decoded_nonempty(s: Seq<char>)
    requires
        s.len() >= 4,
    ensures
        decoded(s).len() > 0,
{
}

/// Normalizing a payload once is enough: its normal form is accepted and is its
/// own normal form.
pub proof fn law_normal_form_is_stable(s: Seq<char>)
    requires
        acceptable(s),
    ensures
        acceptable(normalized(s)),
        normalized(normalized(s)) == normalized(s),
{
    lemma_decoded_nonempty(s);
    law_encoding_reads_back(decoded(s));
}

fn sextet_of(c: char) -> (r: u32)
    ensures
        r == sextet(c),
        r < 64,
{
    proof {
        reveal(sextet);
    }
    if 'A' <= c && c <= 'Z' {
        c as u32 - 65
    } else if 'a' <= c && c <= 'z' {
        c as u32 - 97 + 26
    } else if '0' <= c && c <= '9' {
        c as u32 - 48 + 52
    } else if c == '+' {
        62
    } else if c == '/' {
        63
    } else {
        0
    }
}

fn symbol_of(n: u32) -> (r: char)
    requires
        n < 64,
    ensures
        r == symbol(n as int),
{
    proof {
        reveal(symbol);
    }
    if n < 26 {
        let b: u8 = 65 + n as u8;
        b as char
    } else if n < 52 {
        let b: u8 = 97 + (n - 26) as u8;
        b as char
    } else if n < 62 {
        let b: u8 = 48 + (n - 52) as u8;
        b as char
    } else if n == 62 {
        '+'
    } else {
        '/'
    }
}

fn push_quad(out: &mut Vec<u8>, v: u32, second: bool, third: bool, Ghost(q): Ghost<Seq<char>>)
    requires
        q.len() == 4,
        v == quad_value(q),
        v < 16777216,
        second == (q[2] != '='),
        third == (q[3] != '='),
    ensures
        final(out)@ == old(out)@ + quad_bytes(q),
{
    let ghost before = out@;
    out.push((v / 65536) as u8);
    if second {
        out.push(((v / 256) % 256) as u8);
    }
    if third {
        out.push((v % 256) as u8);
    }
    assert(out@ =~= before + quad_bytes(q));
}

fn decode(chars: &Vec<char>) -> (out: Vec<u8>)
    requires
        chars@.len() % 4 == 0,
    ensures
        out@ == decoded(chars@),
{
    let mut out: Vec<u8> = Vec::new();
    let quads: usize = chars.len() / 4;
    let mut i: usize = 0;
    let mut k: usize = 0;
    assert(chars.len() == 4 * quads);
    while k < quads
        invariant
            k <= quads,
            i == 4 * k,
            chars.len() == 4 * quads,
            out@ == decoded(chars@.take(i as int)),
        decreases quads - k,
    {
        let ghost q = chars@.subrange(i as int, i + 4);
        let a: u32 = sextet_of(chars[i]);
        let b: u32 = sextet_of(chars[i + 1]);
        let c: u32 = sextet_of(chars[i + 2]);
        let d: u32 = sextet_of(chars[i + 3]);
        let v: u32 = a * 262144 + b * 4096 + c * 64 + d;
        assert(v == quad_value(q));
        push_quad(&mut out, v, chars[i + 2] != '=', chars[i + 3] != '=', Ghost(q));
        proof {
            lemma_decoded_append(chars@.take(i as int), q);
            assert(chars@.take(i as int) + q =~= chars@.take(i + 4));
        }
        i = i + 4;
        k = k + 1;
    }
    assert(chars@.take(chars@.len() as int) =~= chars@);
    out
}

fn push_group(out: &mut String, a: u8, b: Option<u8>, c: Option<u8>)
    requires
        c is Some ==> b is Some,
    ensures
        final(out)@ == old(out)@ + group(
            match (b, c) {
                (Some(b), Some(c)) => seq![a, b, c],
                (Some(b), None) => seq![a, b],
                _ => seq![a],
            },
        ),
{
    let ghost start = out@;
    let ghost bytes = match (b, c) {
        (Some(b), Some(c)) => seq![a, b, c],
        (Some(b), None) => seq![a, b],
        _ => seq![a],
    };
    let y: u32 = match b {
        Some(b) => b as u32,
        None => 0,
    };
    let z: u32 = match c {
        Some(c) => c as u32,
        None => 0,
    };
    let v: u32 = a as u32 * 65536 + y * 256 + z;
    assert(v / 262144 < 64);
    out.push(symbol_of(v / 262144));
    out.push(symbol_of((v / 4096) % 64));
    out.push(
        match b {
            Some(_) => symbol_of((v / 64) % 64),
            None => '=',
        },
    );
    out.push(
        match c {
            Some(_) => symbol_of(v % 64),
            None => '=',
        },
    );
    assert(out@ =~= start + group(bytes));
}

proof fn lemma_threes_append(bytes: Seq<u8>, i: int)
    requires
        0 <= i,
        i + 3 <= bytes.len(),
    ensures
        encoded_threes(bytes.take(i + 3)) == encoded_threes(bytes.take(i)) + group(
            seq![bytes[i], bytes[i + 1], bytes[i + 2]],
        ),
{
    let next = bytes.take(i + 3);
    assert(next.take(next.len() - 3) =~= bytes.take(i));
    assert(next.skip(next.len() - 3) =~= seq![bytes[i], bytes[i + 1], bytes[i + 2]]);
}

/// Writes bytes in standard base64.
pub fn encode_standard_base64(bytes: &Vec<u8>) -> (out: String)
    ensures
        out@ == encoded(bytes@),
{
    let mut out = String::new();
    let rest: usize = bytes.len() % 3;
    let whole: usize = bytes.len() - rest;
    let groups: usize = bytes.len() / 3;
    let mut i: usize = 0;
    let mut k: usize = 0;
    assert(whole == 3 * groups);
    assert(out@ =~= encoded_threes(bytes@.take(0)));
    while k < groups
        invariant
            k <= groups,
            i == 3 * k,
            whole == 3 * groups,
            whole <= bytes.len(),
            out@ == encoded_threes(bytes@.take(i as int)),
        decreases groups - k,
    {
        push_group(&mut out, bytes[i], Some(bytes[i + 1]), Some(bytes[i + 2]));
        proof {
            lemma_threes_append(bytes@, i as int);
        }
        i = i + 3;
        k = k + 1;
    }
    if rest == 1 {
        assert(bytes@.skip(whole as int) =~= seq![bytes@[whole as int]]);
        push_group(&mut out, bytes[whole], None, None);
    } else if rest == 2 {
        assert(bytes@.skip(whole as int) =~= seq![bytes@[whole as int], bytes@[whole + 1]]);
        push_group(&mut out, bytes[whole], Some(bytes[whole + 1]), None);
    } else {
        assert(bytes@.take(whole as int) =~= bytes@);
    }
    out
}

fn is_accepted(chars: &Vec<char>) -> (r: bool)
    ensures
        r == acceptable(chars@),
{
    let n: usize = chars.len();
    if n == 0 || n % 4 != 0 {
        return false;
    }
    let mut i: usize = 0;
    while i < n
        invariant
            i <= n == chars@.len(),
            forall|k: int| 0 <= k < i ==> in_alphabet(#[trigger] chars@[k]) || chars@[k] == '=',
        decreases n - i,
    {
        let c = chars[i];
        let known = ('A' <= c && c <= 'Z') || ('a' <= c && c <= 'z') || ('0' <= c && c <= '9')
            || c == '+' || c == '/' || c == '=';
        if !known {
            assert(!(in_alphabet(chars@[i as int]) || chars@[i as int] == '='));
            return false;
        }
        i = i + 1;
    }
    if chars[n - 1] == '=' && chars[n - 2] == '=' {
        let c = chars[n - 3];
        c == 'A' || c == 'a' || c == 'Q' || c == 'g' || c == 'w'
    } else {
        true
    }
}

/// The normal form of a payload, where it is accepted.
pub fn normalize(data: &str) -> (r: Option<String>)
    ensures
        match r {
            Some(out) => acceptable(data@) && out@ == normalized(data@),
            None => !acceptable(data@),
        },
{
    let chars = text::chars_of(data);
    if is_accepted(&chars) {
        let bytes = decode(&chars);
        Some(encode_standard_base64(&bytes))
    } else {
        None
    }
}

} // verus!
