//! Text encodings of bytes and strings: the form of JSON string literals
//! that `serde_json` writes, lower-case hexadecimal, and standard Base64 with padding.
use vstd::prelude::*;

use crate::outside::json_string_literal;

verus! {

/// A hexadecimal digit, lower case.
pub open spec fn hex_digit(v: nat) -> char {
    if v < 10 {
        ((48 + v) as u8) as char
    } else {
        ((87 + v) as u8) as char
    }
}

/// How a character stands inside a JSON string literal: `"` and `\` and
/// the control characters escaped (`\b \f \n \r \t`, else `\u00XX` in lower
/// case hexadecimal), every other character as itself.
pub open spec fn json_escape_char(c: char) -> Seq<char> {
    let v = c as int;
    if c == '"' {
        seq!['\\', '"']
    } else if c == '\\' {
        seq!['\\', '\\']
    } else if v == 8 {
        seq!['\\', 'b']
    } else if v == 12 {
        seq!['\\', 'f']
    } else if c == '\n' {
        seq!['\\', 'n']
    } else if c == '\r' {
        seq!['\\', 'r']
    } else if c == '\t' {
        seq!['\\', 't']
    } else if v < 0x20 {
        seq!['\\', 'u', '0', '0', hex_digit((v / 16) as nat), hex_digit((v % 16) as nat)]
    } else {
        seq![c]
    }
}

pub open spec fn json_escape(s: Seq<char>) -> Seq<char>
    decreases s.len(),
{
    if s.len() == 0 {
        seq![]
    } else {
        json_escape(s.drop_last()) + json_escape_char(s.last())
    }
}

/// The JSON string literal of `s`.
pub open spec fn json_string(s: Seq<char>) -> Seq<char> {
    seq!['"'] + json_escape(s) + seq!['"']
}

/// Appends the JSON string literal of `s`, as serde_json writes it.
pub fn push_json_string(out: &mut String, s: &str)
    ensures
        final(out)@ == old(out)@ + json_string(s@),
{
    let lit = json_string_literal(s);
    out.append(lit.as_str());
}

proof fn lemma_hex_digit(v: nat, w: nat)
    requires
        v < 16,
        w < 16,
    ensures
        hex_digit(v) != ',',
        hex_digit(v) != '"',
        hex_digit(v) == hex_digit(w) ==> v == w,
{
}

/// What the escape of one character looks like: never a `"`, never a `,`
/// but for `,` itself, and either the character alone or a `\` and at
/// least one more character.
proof fn lemma_escape_char_shape(c: char)
    ensures
        json_escape_char(c).len() >= 1,
        json_escape_char(c)[0] != '"',
        json_escape_char(c)[0] != '\\' ==> json_escape_char(c) == seq![c] && c != '"' && c != '\\',
        json_escape_char(c)[0] == '\\' ==> json_escape_char(c).len() >= 2,
        c != ',' ==> !json_escape_char(c).contains(','),
{
    let v = c as int;
    if v < 0x20 && c != '\n' && c != '\r' && c != '\t' && v != 8 && v != 12 {
        lemma_hex_digit((v / 16) as nat, 0);
        lemma_hex_digit((v % 16) as nat, 0);
    }
}

/// The escape of a character is not the prefix of another's: one escape,
/// followed by anything, names its character.
proof fn lemma_escape_char_injective(c: char, d: char, x: Seq<char>, y: Seq<char>)
    requires
        json_escape_char(c) + x == json_escape_char(d) + y,
    ensures
        c == d,
        x == y,
{
    let u = json_escape_char(c);
    let w = json_escape_char(d);
    lemma_escape_char_shape(c);
    lemma_escape_char_shape(d);
    assert((u + x)[0] == u[0]);
    assert((w + y)[0] == w[0]);
    if u[0] != '\\' {
        assert(c == d);
    } else {
        assert((u + x)[1] == u[1]);
        assert((w + y)[1] == w[1]);
        let vc = c as int;
        let vd = d as int;
        if u[1] == 'u' {
            assert(u.len() == 6 && w.len() == 6);
            assert((u + x)[4] == u[4] && (w + y)[4] == w[4]);
            assert((u + x)[5] == u[5] && (w + y)[5] == w[5]);
            lemma_hex_digit((vc / 16) as nat, (vd / 16) as nat);
            lemma_hex_digit((vc % 16) as nat, (vd % 16) as nat);
            assert(vc == vd);
        }
        assert(c == d);
    }
    assert(x =~= (u + x).skip(u.len() as int));
    assert(y =~= (w + y).skip(w.len() as int));
}

/// The escape of a string, from its first character on.
proof fn lemma_json_escape_front(s: Seq<char>)
    requires
        s.len() > 0,
    ensures
        json_escape(s) == json_escape_char(s[0]) + json_escape(s.drop_first()),
    decreases s.len(),
{
    if s.len() == 1 {
        assert(s.drop_last() =~= Seq::<char>::empty());
        assert(s.drop_first() =~= Seq::<char>::empty());
        assert(json_escape(Seq::<char>::empty()) =~= Seq::<char>::empty());
        assert(s.last() == s[0]);
        assert(json_escape(s) =~= json_escape_char(s[0]));
    } else {
        lemma_json_escape_front(s.drop_last());
        assert(s.drop_last().drop_first() =~= s.drop_first().drop_last());
        assert(s.drop_first().last() == s.last());
        assert(json_escape(s) =~= json_escape_char(s[0]) + json_escape(s.drop_first()));
    }
}

/// A string's escape holds no `,` when the string holds none.
pub proof fn lemma_json_escape_no_comma(s: Seq<char>)
    requires
        !s.contains(','),
    ensures
        !json_escape(s).contains(','),
    decreases s.len(),
{
    if s.len() > 0 {
        let init = s.drop_last();
        assert(!init.contains(',')) by {
            if init.contains(',') {
                let k = choose|k: int| 0 <= k < init.len() && init[k] == ',';
                assert(s[k] == ',');
            }
        }
        lemma_json_escape_no_comma(init);
        assert(s[s.len() - 1] != ',');
        lemma_escape_char_shape(s.last());
        let a = json_escape(init);
        let b = json_escape_char(s.last());
        assert(json_escape(s) == a + b);
        if (a + b).contains(',') {
            let k = choose|k: int| 0 <= k < (a + b).len() && (a + b)[k] == ',';
            if k < a.len() {
                assert(a[k] == ',');
            } else {
                assert(b[k - a.len()] == ',');
            }
        }
    }
}

/// An escaped string ends where its closing `"` stands: what precedes the
/// first unescaped `"` determines the string.
pub proof fn lemma_json_escape_prefix(a: Seq<char>, b: Seq<char>, x: Seq<char>, y: Seq<char>)
    requires
        json_escape(a) + x == json_escape(b) + y,
        x.len() > 0 && x[0] == '"',
        y.len() > 0 && y[0] == '"',
    ensures
        a == b,
        x == y,
    decreases a.len() + b.len(),
{
    if a.len() == 0 && b.len() == 0 {
        assert(x =~= json_escape(a) + x);
        assert(y =~= json_escape(b) + y);
    } else if a.len() == 0 {
        lemma_json_escape_front(b);
        lemma_escape_char_shape(b[0]);
        assert(json_escape(a) + x =~= x);
        assert((json_escape(b) + y)[0] == json_escape_char(b[0])[0]);
    } else if b.len() == 0 {
        lemma_json_escape_front(a);
        lemma_escape_char_shape(a[0]);
        assert(json_escape(b) + y =~= y);
        assert((json_escape(a) + x)[0] == json_escape_char(a[0])[0]);
    } else {
        lemma_json_escape_front(a);
        lemma_json_escape_front(b);
        let ra = json_escape(a.drop_first()) + x;
        let rb = json_escape(b.drop_first()) + y;
        assert(json_escape(a) + x =~= json_escape_char(a[0]) + ra);
        assert(json_escape(b) + y =~= json_escape_char(b[0]) + rb);
        lemma_escape_char_injective(a[0], b[0], ra, rb);
        lemma_json_escape_prefix(a.drop_first(), b.drop_first(), x, y);
        assert(a =~= seq![a[0]] + a.drop_first());
        assert(b =~= seq![b[0]] + b.drop_first());
    }
}

/// A JSON string literal is not the prefix of another: a literal, followed
/// by anything, names its string.
pub proof fn lemma_json_string_prefix(a: Seq<char>, b: Seq<char>, x: Seq<char>, y: Seq<char>)
    requires
        json_string(a) + x == json_string(b) + y,
    ensures
        a == b,
        x == y,
{
    let q = seq!['"'];
    assert(json_string(a) + x =~= q + (json_escape(a) + (q + x)));
    assert(json_string(b) + y =~= q + (json_escape(b) + (q + y)));
    assert(json_escape(a) + (q + x) =~= (json_string(a) + x).skip(1));
    assert(json_escape(b) + (q + y) =~= (json_string(b) + y).skip(1));
    lemma_json_escape_prefix(a, b, q + x, q + y);
    assert(x =~= (q + x).skip(1));
    assert(y =~= (q + y).skip(1));
}

/// Lower-case hexadecimal, two digits per byte, high half first.
pub open spec fn hex_lower(bytes: Seq<u8>) -> Seq<char>
    decreases bytes.len(),
{
    if bytes.len() == 0 {
        seq![]
    } else {
        hex_lower(bytes.drop_last()) + seq![
            hex_digit((bytes.last() / 16) as nat),
            hex_digit((bytes.last() % 16) as nat),
        ]
    }
}

/// A character of the standard Base64 alphabet.
pub open spec fn b64_char(v: int) -> char {
    if v < 26 {
        ((65 + v) as u8) as char
    } else if v < 52 {
        ((71 + v) as u8) as char
    } else if v < 62 {
        ((v - 4) as u8) as char
    } else if v == 62 {
        '+'
    } else {
        '/'
    }
}

/// Standard Base64 (RFC 4648 alphabet), padded with `=`.
pub open spec fn base64_spec(b: Seq<u8>) -> Seq<char>
    decreases b.len(),
{
    if b.len() == 0 {
        seq![]
    } else if b.len() == 1 {
        let x0 = b[0] as int;
        seq![b64_char(x0 / 4), b64_char((x0 % 4) * 16), '=', '=']
    } else if b.len() == 2 {
        let x0 = b[0] as int;
        let x1 = b[1] as int;
        seq![b64_char(x0 / 4), b64_char((x0 % 4) * 16 + x1 / 16), b64_char((x1 % 16) * 4), '=']
    } else {
        let x0 = b[0] as int;
        let x1 = b[1] as int;
        let x2 = b[2] as int;
        seq![
            b64_char(x0 / 4),
            b64_char((x0 % 4) * 16 + x1 / 16),
            b64_char((x1 % 16) * 4 + x2 / 64),
            b64_char(x2 % 64),
        ] + base64_spec(b.skip(3))
    }
}

proof fn lemma_b64_char(v: int, w: int)
    requires
        0 <= v < 64,
        0 <= w < 64,
    ensures
        b64_char(v) != '=',
        b64_char(v) == b64_char(w) ==> v == w,
{
}

proof fn lemma_digits(x1: int, y1: int, x2: int, y2: int, base: int)
    requires
        base > 0,
        0 <= y1 < base,
        0 <= y2 < base,
        x1 * base + y1 == x2 * base + y2,
    ensures
        x1 == x2,
        y1 == y2,
{
    assert(x1 == x2) by (nonlinear_arith)
        requires
            base > 0,
            0 <= y1 < base,
            0 <= y2 < base,
            x1 * base + y1 == x2 * base + y2,
    ;
}

proof fn lemma_byte_parts(x: int, y: int, d: int)
    requires
        d == 4 || d == 16 || d == 64,
        x / d == y / d,
        x % d == y % d,
    ensures
        x == y,
{
}

/// Different byte strings have different Base64 encodings.
pub proof fn lemma_base64_injective(a: Seq<u8>, b: Seq<u8>)
    requires
        base64_spec(a) == base64_spec(b),
    ensures
        a == b,
    decreases a.len(),
{
    let ea = base64_spec(a);
    let eb = base64_spec(b);
    if a.len() == 0 || b.len() == 0 {
        if a.len() != 0 || b.len() != 0 {
            assert(ea.len() != eb.len());
        }
        assert(a =~= b);
    } else {
        lemma_b64_char((a[0] as int) / 4, (b[0] as int) / 4);
        assert(ea[0] == eb[0]);
        assert((a[0] as int) / 4 == (b[0] as int) / 4);
        let ca = if a.len() < 3 { a.len() as int } else { 3 };
        let cb = if b.len() < 3 { b.len() as int } else { 3 };
        if ca != cb {
            if ca == 1 || cb == 1 {
                let (x, lx) = if ca == 1 { (b, cb) } else { (a, ca) };
                if lx == 2 {
                    lemma_b64_char(((x[1] as int) % 16) * 4, 0);
                } else {
                    lemma_b64_char(((x[1] as int) % 16) * 4 + (x[2] as int) / 64, 0);
                }
                assert(ea[2] != eb[2]);
            } else {
                let x = if ca == 3 { a } else { b };
                lemma_b64_char((x[2] as int) % 64, 0);
                assert(ea[3] != eb[3]);
            }
        } else if ca == 1 {
            lemma_b64_char(((a[0] as int) % 4) * 16, ((b[0] as int) % 4) * 16);
            assert(ea[1] == eb[1]);
            lemma_byte_parts((a[0] as int), (b[0] as int), 4);
            assert(a =~= b);
        } else {
            lemma_b64_char(((a[0] as int) % 4) * 16 + (a[1] as int) / 16, ((b[0] as int) % 4) * 16 + (b[1] as int) / 16);
            assert(ea[1] == eb[1]);
            lemma_digits(((a[0] as int) % 4) as int, ((a[1] as int) / 16) as int, ((b[0] as int) % 4) as int, ((b[1] as int) / 16) as int, 16);
            lemma_byte_parts((a[0] as int), (b[0] as int), 4);
            if ca == 2 {
                lemma_b64_char(((a[1] as int) % 16) * 4, ((b[1] as int) % 16) * 4);
                assert(ea[2] == eb[2]);
                lemma_byte_parts((a[1] as int), (b[1] as int), 16);
                assert(a =~= b);
            } else {
                lemma_b64_char(((a[1] as int) % 16) * 4 + (a[2] as int) / 64, ((b[1] as int) % 16) * 4 + (b[2] as int) / 64);
                assert(ea[2] == eb[2]);
                lemma_digits(((a[1] as int) % 16) as int, ((a[2] as int) / 64) as int, ((b[1] as int) % 16) as int, ((b[2] as int) / 64) as int, 4);
                lemma_byte_parts((a[1] as int), (b[1] as int), 16);
                lemma_b64_char((a[2] as int) % 64, (b[2] as int) % 64);
                assert(ea[3] == eb[3]);
                lemma_byte_parts((a[2] as int), (b[2] as int), 64);
                assert(base64_spec(a.skip(3)) =~= ea.skip(4));
                assert(base64_spec(b.skip(3)) =~= eb.skip(4));
                lemma_base64_injective(a.skip(3), b.skip(3));
                assert(a =~= a.subrange(0, 3) + a.skip(3));
                assert(b =~= b.subrange(0, 3) + b.skip(3));
                assert(a.subrange(0, 3) =~= b.subrange(0, 3));
            }
        }
    }
}

} // verus!
