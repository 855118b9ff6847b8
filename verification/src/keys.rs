//! WireGuard private keys in base64.
//!
//! Curve25519 ignores five bits of a private key and sets one: it clamps the key. RouterOS keeps
//! the clamped key, whatever it was given, so two texts that differ only in those bits are the
//! same key.

use crate::text::{chars_of, same};
use vstd::prelude::*;

verus! {

/// Whether `c` is a digit of base64.
pub open spec fn is_sextet(c: char) -> bool {
    ||| 'A' <= c <= 'Z'
    ||| 'a' <= c <= 'z'
    ||| '0' <= c <= '9'
    ||| c == '+'
    ||| c == '/'
}

/// The six bits that a digit of base64 stands for.
pub open spec fn sextet(c: char) -> nat {
    if 'A' <= c <= 'Z' {
        ((c as int) - ('A' as int)) as nat
    } else if 'a' <= c <= 'z' {
        ((c as int) - ('a' as int) + 26) as nat
    } else if '0' <= c <= '9' {
        ((c as int) - ('0' as int) + 52) as nat
    } else if c == '+' {
        62
    } else {
        63
    }
}

/// Whether `s` writes 32 bytes in base64.
pub open spec fn is_key(s: Seq<char>) -> bool {
    &&& s.len() == 44
    &&& s[43] == '='
    &&& forall|i: int| 0 <= i < 43 ==> is_sextet(#[trigger] s[i])
}

/// The byte `i` that `s` writes: three bytes to four digits.
pub open spec fn key_byte(s: Seq<char>, i: int) -> nat {
    let at = 4 * (i / 3);
    if i % 3 == 0 {
        sextet(s[at]) * 4 + sextet(s[at + 1]) / 16
    } else if i % 3 == 1 {
        sextet(s[at + 1]) % 16 * 16 + sextet(s[at + 2]) / 4
    } else {
        sextet(s[at + 2]) % 4 * 64 + sextet(s[at + 3])
    }
}

/// The byte `i` of the clamped key: the lowest three bits of the first byte and the highest of
/// the last are zero, and the second highest of the last is one.
pub open spec fn clamped_byte(s: Seq<char>, i: int) -> nat {
    let b = key_byte(s, i);
    if i == 0 {
        (b - b % 8) as nat
    } else if i == 31 {
        b % 64 + 64
    } else {
        b
    }
}

/// Whether two texts are the same private key: the same text, or two keys that clamp to the same
/// one.
pub open spec fn same_private_key(a: Seq<char>, b: Seq<char>) -> bool {
    ||| a == b
    ||| {
        &&& is_key(a)
        &&& is_key(b)
        &&& forall|i: int| 0 <= i < 32 ==> #[trigger] clamped_byte(a, i) == clamped_byte(b, i)
    }
}

/// Being the same private key is an equivalence.
pub proof fn law_same_private_key(a: Seq<char>, b: Seq<char>, c: Seq<char>)
    ensures
        same_private_key(a, a),
        same_private_key(a, b) == same_private_key(b, a),
        same_private_key(a, b) && same_private_key(b, c) ==> same_private_key(a, c),
{
    assert forall|x: Seq<char>, y: Seq<char>| same_private_key(x, y) implies same_private_key(
        y,
        x,
    ) by {
        if x != y {
            assert forall|i: int| 0 <= i < 32 implies #[trigger] clamped_byte(y, i)
                == clamped_byte(x, i) by {
                assert(clamped_byte(x, i) == clamped_byte(y, i));
            }
        }
    }
    if same_private_key(a, b) && same_private_key(b, c) && a != b && b != c {
        assert forall|i: int| 0 <= i < 32 implies #[trigger] clamped_byte(a, i) == clamped_byte(
            c,
            i,
        ) by {
            assert(clamped_byte(a, i) == clamped_byte(b, i));
            assert(clamped_byte(b, i) == clamped_byte(c, i));
        }
    }
}

fn sextet_of(c: char) -> (r: Option<u32>)
    ensures
        r == (if is_sextet(c) {
            Some(sextet(c) as u32)
        } else {
            None
        }),
{
    if 'A' <= c && c <= 'Z' {
        Some((c as u32) - ('A' as u32))
    } else if 'a' <= c && c <= 'z' {
        Some((c as u32) - ('a' as u32) + 26)
    } else if '0' <= c && c <= '9' {
        Some((c as u32) - ('0' as u32) + 52)
    } else if c == '+' {
        Some(62)
    } else if c == '/' {
        Some(63)
    } else {
        None
    }
}

/// The digits of a key, or `None` if the text writes none.
fn key_digits(s: &str) -> (r: Option<Vec<u32>>)
    ensures
        r is Some == is_key(s@),
        r matches Some(v) ==> v@.len() == 43 && forall|i: int|
            0 <= i < 43 ==> #[trigger] v@[i] == sextet(s@[i]) && v@[i] < 64,
{
    let chars = chars_of(s);
    if chars.len() != 44 || chars[43] != '=' {
        return None;
    }
    let mut out: Vec<u32> = Vec::new();
    let mut i: usize = 0;
    while i < 43
        invariant
            i <= 43,
            chars@ == s@,
            s@.len() == 44,
            s@[43] == '=',
            out@.len() == i,
            forall|k: int| 0 <= k < i ==> is_sextet(#[trigger] s@[k]),
            forall|k: int| 0 <= k < i ==> #[trigger] out@[k] == sextet(s@[k]) && out@[k] < 64,
        decreases 43 - i,
    {
        match sextet_of(chars[i]) {
            Some(d) => {
                out.push(d);
            },
            None => {
                assert(!is_sextet(s@[i as int]));
                return None;
            },
        }
        i = i + 1;
    }
    Some(out)
}

/// The byte `i` of the clamped key that the digits write.
fn clamped_at(v: &Vec<u32>, i: usize, Ghost(s): Ghost<Seq<char>>) -> (r: u32)
    requires
        i < 32,
        v@.len() == 43,
        forall|k: int| 0 <= k < 43 ==> #[trigger] v@[k] == sextet(s[k]) && v@[k] < 64,
    ensures
        r == clamped_byte(s, i as int),
{
    let at: usize = 4 * (i / 3);
    let b: u32 = if i % 3 == 0 {
        v[at] * 4 + v[at + 1] / 16
    } else if i % 3 == 1 {
        v[at + 1] % 16 * 16 + v[at + 2] / 4
    } else {
        v[at + 2] % 4 * 64 + v[at + 3]
    };
    if i == 0 {
        b - b % 8
    } else if i == 31 {
        b % 64 + 64
    } else {
        b
    }
}

/// Whether two texts are the same private key.
pub fn is_same_private_key(a: &str, b: &str) -> (r: bool)
    ensures
        r == same_private_key(a@, b@),
{
    if same(a, b) {
        return true;
    }
    match (key_digits(a), key_digits(b)) {
        (Some(x), Some(y)) => {
            let mut i: usize = 0;
            while i < 32
                invariant
                    i <= 32,
                    is_key(a@),
                    is_key(b@),
                    a@ != b@,
                    x@.len() == 43,
                    y@.len() == 43,
                    forall|k: int|
                        0 <= k < 43 ==> #[trigger] x@[k] == sextet(a@[k]) && x@[k] < 64,
                    forall|k: int|
                        0 <= k < 43 ==> #[trigger] y@[k] == sextet(b@[k]) && y@[k] < 64,
                    forall|k: int|
                        0 <= k < i ==> #[trigger] clamped_byte(a@, k) == clamped_byte(b@, k),
                decreases 32 - i,
            {
                if clamped_at(&x, i, Ghost(a@)) != clamped_at(&y, i, Ghost(b@)) {
                    assert(clamped_byte(a@, i as int) != clamped_byte(b@, i as int));
                    return false;
                }
                i = i + 1;
            }
            true
        },
        _ => false,
    }
}

/// The digits of base64 are those of its alphabet, each of which stands for its place in it.
pub proof fn law_alphabet()
    ensures
        ({
            let alphabet = "ABCDEFGHIJKLMNOPQRSTUVWXYZabcdefghijklmnopqrstuvwxyz0123456789+/"@;
            &&& alphabet.len() == 64
            &&& forall|v: int|
                0 <= v < 64 ==> is_sextet(#[trigger] alphabet[v]) && sextet(alphabet[v]) == v
            &&& forall|c: char| #[trigger] is_sextet(c) ==> sextet(c) < 64 && alphabet[sextet(
                c,
            ) as int] == c
        }),
{
    reveal_strlit("ABCDEFGHIJKLMNOPQRSTUVWXYZabcdefghijklmnopqrstuvwxyz0123456789+/");
}

/// Two texts of 32 bytes in base64 are the same private key exactly if they agree in all but the
/// bits that do not count: the last of the first digit, the first two of the second, the
/// middle two of the one before the last but one, and the last two of the last. Any other two texts
/// are the same key exactly if they are the same text.
pub proof fn law_same_private_key_by_digits(a: Seq<char>, b: Seq<char>)
    ensures
        !is_key(a) || !is_key(b) ==> same_private_key(a, b) == (a == b),
        is_key(a) && is_key(b) ==> same_private_key(a, b) == {
            &&& sextet(a[0]) / 2 == sextet(b[0]) / 2
            &&& sextet(a[1]) % 16 == sextet(b[1]) % 16
            &&& forall|i: int| 2 <= i < 41 ==> #[trigger] a[i] == b[i]
            &&& sextet(a[41]) / 16 == sextet(b[41]) / 16
            &&& sextet(a[41]) % 4 == sextet(b[41]) % 4
            &&& sextet(a[42]) / 4 == sextet(b[42]) / 4
        },
{
    if is_key(a) && is_key(b) {
        lemma_sextets(a);
        lemma_sextets(b);
        if same_private_key(a, b) && a != b {
            lemma_same_ends(a, b);
            assert forall|i: int| 2 <= i < 41 implies #[trigger] a[i] == b[i] by {
                lemma_same_digit(a, b, i);
            }
        }
        if {
            &&& sextet(a[0]) / 2 == sextet(b[0]) / 2
            &&& sextet(a[1]) % 16 == sextet(b[1]) % 16
            &&& forall|i: int| 2 <= i < 41 ==> #[trigger] a[i] == b[i]
            &&& sextet(a[41]) / 16 == sextet(b[41]) / 16
            &&& sextet(a[41]) % 4 == sextet(b[41]) % 4
            &&& sextet(a[42]) / 4 == sextet(b[42]) / 4
        } {
            assert forall|i: int| 0 <= i < 32 implies #[trigger] clamped_byte(a, i)
                == clamped_byte(b, i) by {
                lemma_same_byte(a, b, i);
            }
        }
    }
}

proof fn lemma_sextets(s: Seq<char>)
    requires
        is_key(s),
    ensures
        forall|k: int| 0 <= k < 43 ==> 0 <= sextet(#[trigger] s[k]) < 64,
{
    assert forall|k: int| 0 <= k < 43 implies 0 <= sextet(#[trigger] s[k]) < 64 by {
        assert(is_sextet(s[k]));
    }
}

proof fn lemma_same_ends(a: Seq<char>, b: Seq<char>)
    requires
        is_key(a) && is_key(b),
        forall|i: int| 0 <= i < 32 ==> #[trigger] clamped_byte(a, i) == clamped_byte(b, i),
    ensures
        sextet(a[0]) / 2 == sextet(b[0]) / 2,
        sextet(a[1]) % 16 == sextet(b[1]) % 16,
        sextet(a[41]) / 16 == sextet(b[41]) / 16,
        sextet(a[41]) % 4 == sextet(b[41]) % 4,
        sextet(a[42]) / 4 == sextet(b[42]) / 4,
{
    lemma_sextets(a);
    lemma_sextets(b);
    assert(clamped_byte(a, 0) == clamped_byte(b, 0));
    assert(clamped_byte(a, 1) == clamped_byte(b, 1));
    assert(clamped_byte(a, 30) == clamped_byte(b, 30));
    assert(clamped_byte(a, 31) == clamped_byte(b, 31));
    lemma_first(sextet(a[0]) as int, sextet(a[1]) as int, sextet(a[2]) as int);
    lemma_first(sextet(b[0]) as int, sextet(b[1]) as int, sextet(b[2]) as int);
    lemma_last(sextet(a[40]) as int, sextet(a[41]) as int, sextet(a[42]) as int);
    lemma_last(sextet(b[40]) as int, sextet(b[41]) as int, sextet(b[42]) as int);
}

proof fn lemma_first(x: int, y: int, z: int)
    requires
        0 <= x < 64 && 0 <= y < 64 && 0 <= z < 64,
    ensures
        (x * 4 + y / 16) - (x * 4 + y / 16) % 8 == x / 2 * 8,
        (y % 16 * 16 + z / 4) / 16 == y % 16,
        (y % 16 * 16 + z / 4) % 16 == z / 4,
{
    assert(x == 2 * (x / 2) + x % 2);
    lemma_parts(8, x / 2, 4 * (x % 2) + y / 16);
    lemma_parts(16, y % 16, z / 4);
}

proof fn lemma_last(x: int, y: int, z: int)
    requires
        0 <= x < 64 && 0 <= y < 64 && 0 <= z < 64,
    ensures
        (x * 4 + y / 16) % 4 == y / 16,
        (x * 4 + y / 16) / 4 == x,
        (y % 16 * 16 + z / 4) % 64 / 16 == y % 4,
        (y % 16 * 16 + z / 4) % 16 == z / 4,
        (y % 16 * 16 + z / 4) % 64 == y % 4 * 16 + z / 4,
{
    let (q, r, s, u) = (y / 16, y % 16 / 4, y % 4, z / 4);
    assert(y == 16 * q + 4 * r + s && 0 <= q < 4 && 0 <= r < 4 && 0 <= s < 4 && 0 <= u < 16);
    lemma_parts(4, x, q);
    assert(y % 16 * 16 + u == 64 * r + (16 * s + u));
    lemma_parts(64, r, 16 * s + u);
    lemma_parts(16, s, u);
    lemma_parts(16, 4 * r + s, u);
}

proof fn lemma_parts(n: int, a: int, b: int)
    requires
        0 <= b < n,
    ensures
        (n * a + b) / n == a,
        (n * a + b) % n == b,
{
    assert(n * a == a * n) by (nonlinear_arith);
    vstd::arithmetic::div_mod::lemma_fundamental_div_mod_converse(n * a + b, n, a, b);
}

proof fn lemma_triple(x: int, y: int, z: int, w: int)
    requires
        0 <= x < 64 && 0 <= y < 64 && 0 <= z < 64 && 0 <= w < 64,
    ensures
        (x * 4 + y / 16) / 4 == x,
        (x * 4 + y / 16) % 4 == y / 16,
        (y % 16 * 16 + z / 4) / 16 == y % 16,
        (y % 16 * 16 + z / 4) % 16 == z / 4,
        (z % 4 * 64 + w) / 64 == z % 4,
        (z % 4 * 64 + w) % 64 == w,
        y == y / 16 * 16 + y % 16,
        z == z / 4 * 4 + z % 4,
{
    lemma_parts(4, x, y / 16);
    lemma_parts(16, y % 16, z / 4);
    lemma_parts(64, z % 4, w);
}

/// What stands for the same six bits is the same digit.
proof fn lemma_sextet_injective(c: char, d: char)
    requires
        is_sextet(c) && is_sextet(d),
        sextet(c) == sextet(d),
    ensures
        c == d,
{
}

proof fn lemma_same_digit(a: Seq<char>, b: Seq<char>, i: int)
    requires
        is_key(a) && is_key(b),
        2 <= i < 41,
        forall|k: int| 0 <= k < 32 ==> #[trigger] clamped_byte(a, k) == clamped_byte(b, k),
    ensures
        a[i] == b[i],
{
    lemma_sextets(a);
    lemma_sextets(b);
    let g = i / 4;
    let at = 4 * g;
    let k = 3 * g;
    assert(k / 3 == g && (k + 1) / 3 == g && (k + 2) / 3 == g);
    assert(k % 3 == 0 && (k + 1) % 3 == 1 && (k + 2) % 3 == 2);
    let (x, y, z) = (sextet(a[at]) as int, sextet(a[at + 1]) as int, sextet(a[at + 2]) as int);
    let (u, v, w) = (sextet(b[at]) as int, sextet(b[at + 1]) as int, sextet(b[at + 2]) as int);
    assert(clamped_byte(a, k) == clamped_byte(b, k));
    assert(clamped_byte(a, k + 1) == clamped_byte(b, k + 1));
    if g < 10 {
        let (p, q) = (sextet(a[at + 3]) as int, sextet(b[at + 3]) as int);
        assert(clamped_byte(a, k + 2) == clamped_byte(b, k + 2));
        lemma_triple(x, y, z, p);
        lemma_triple(u, v, w, q);
        assert(key_byte(a, k + 2) == z % 4 * 64 + p);
        assert(key_byte(b, k + 2) == w % 4 * 64 + q);
        assert(p == q && z % 4 == w % 4);
        assert(key_byte(a, k + 1) == y % 16 * 16 + z / 4);
        assert(key_byte(b, k + 1) == v % 16 * 16 + w / 4);
        assert(z / 4 == w / 4 && z == w);
        if g > 0 {
            assert(key_byte(a, k) == x * 4 + y / 16);
            assert(key_byte(b, k) == u * 4 + v / 16);
            assert(x == u && y == v);
        }
    } else {
        assert(i == 40);
        lemma_triple(x, y, z, 0);
        lemma_triple(u, v, w, 0);
        assert(key_byte(a, k) == x * 4 + y / 16);
        assert(key_byte(b, k) == u * 4 + v / 16);
        assert(x == u);
    }
    assert(is_sextet(a[i]) && is_sextet(b[i]));
    assert(i == at || i == at + 1 || i == at + 2 || i == at + 3);
    lemma_sextet_injective(a[i], b[i]);
}

proof fn lemma_same_byte(a: Seq<char>, b: Seq<char>, i: int)
    requires
        is_key(a) && is_key(b),
        0 <= i < 32,
        sextet(a[0]) / 2 == sextet(b[0]) / 2,
        sextet(a[1]) % 16 == sextet(b[1]) % 16,
        forall|k: int| 2 <= k < 41 ==> #[trigger] a[k] == b[k],
        sextet(a[41]) / 16 == sextet(b[41]) / 16,
        sextet(a[41]) % 4 == sextet(b[41]) % 4,
        sextet(a[42]) / 4 == sextet(b[42]) / 4,
    ensures
        clamped_byte(a, i) == clamped_byte(b, i),
{
    lemma_sextets(a);
    lemma_sextets(b);
    let at = 4 * (i / 3);
    if i == 0 {
        lemma_first(sextet(a[0]) as int, sextet(a[1]) as int, sextet(a[2]) as int);
        lemma_first(sextet(b[0]) as int, sextet(b[1]) as int, sextet(b[2]) as int);
    } else if i == 31 {
        lemma_last(sextet(a[40]) as int, sextet(a[41]) as int, sextet(a[42]) as int);
        lemma_last(sextet(b[40]) as int, sextet(b[41]) as int, sextet(b[42]) as int);
    } else if i == 30 {
        assert(a[40] == b[40]);
    } else if i == 1 {
        assert(a[2] == b[2]);
    } else {
        if at > 0 {
            assert(a[at] == b[at] && a[at + 1] == b[at + 1]);
        }
        assert(a[at + 2] == b[at + 2] && a[at + 3] == b[at + 3]);
    }
}

} // verus!
