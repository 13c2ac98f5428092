//! Character and string helpers shared by the configuration, license and
//! deployment logic: whitespace trimming, line splitting, joining, ordering.
use vstd::prelude::*;

verus! {

/// Appends one character to a string (`String::push`).
#[verifier::external_body]
pub(crate) fn push_char(s: &mut String, c: char)
    ensures
        final(s)@ == old(s)@.push(c),
{
    s.push(c);
}

/// The Unicode `White_Space` property, which `char::is_whitespace` decides.
pub open spec fn is_ws(c: char) -> bool {
    let v = c as u32;
    ||| 9 <= v <= 13
    ||| v == 32
    ||| v == 0x85
    ||| v == 0xa0
    ||| v == 0x1680
    ||| 0x2000 <= v <= 0x200a
    ||| v == 0x2028
    ||| v == 0x2029
    ||| v == 0x202f
    ||| v == 0x205f
    ||| v == 0x3000
}

pub fn is_whitespace(c: char) -> (b: bool)
    ensures
        b == is_ws(c),
{
    let v = c as u32;
    (9 <= v && v <= 13) || v == 32 || v == 0x85 || v == 0xa0 || v == 0x1680 || (0x2000 <= v
        && v <= 0x200a) || v == 0x2028 || v == 0x2029 || v == 0x202f || v == 0x205f || v
        == 0x3000
}

pub open spec fn trim_start_seq(s: Seq<char>) -> Seq<char>
    decreases s.len(),
{
    if s.len() > 0 && is_ws(s[0]) {
        trim_start_seq(s.drop_first())
    } else {
        s
    }
}

pub open spec fn trim_end_seq(s: Seq<char>) -> Seq<char>
    decreases s.len(),
{
    if s.len() > 0 && is_ws(s.last()) {
        trim_end_seq(s.drop_last())
    } else {
        s
    }
}

/// What `str::trim` leaves of `s`.
pub open spec fn trim_seq(s: Seq<char>) -> Seq<char> {
    trim_end_seq(trim_start_seq(s))
}

/// Copies the characters `s[from..to]` onto the end of `out`.
pub fn append_range(out: &mut String, s: &str, from: usize, to: usize)
    requires
        from <= to <= s@.len(),
    ensures
        final(out)@ == old(out)@ + s@.subrange(from as int, to as int),
{
    let mut i = from;
    while i < to
        invariant
            from <= i <= to <= s@.len(),
            out@ == old(out)@ + s@.subrange(from as int, i as int),
        decreases to - i,
    {
        let c = s.get_char(i);
        push_char(out, c);
        assert(s@.subrange(from as int, i + 1) == s@.subrange(from as int, i as int).push(c));
        i = i + 1;
    }
}

/// `str::trim`: removes leading and trailing whitespace.
pub fn trim(s: &str) -> (r: String)
    ensures
        r@ == trim_seq(s@),
{
    let n = s.unicode_len();
    let mut i: usize = 0;
    assert(s@.subrange(0, n as int) == s@);
    while i < n && is_whitespace(s.get_char(i))
        invariant
            n == s@.len(),
            i <= n,
            trim_start_seq(s@) == trim_start_seq(s@.subrange(i as int, n as int)),
        decreases n - i,
    {
        assert(s@.subrange(i as int, n as int).drop_first() == s@.subrange(i + 1, n as int));
        i = i + 1;
    }
    let ghost mid = s@.subrange(i as int, n as int);
    assert(trim_start_seq(mid) == mid);
    let mut j: usize = n;
    while j > i && is_whitespace(s.get_char(j - 1))
        invariant
            n == s@.len(),
            i <= j <= n,
            mid == s@.subrange(i as int, n as int),
            trim_end_seq(mid) == trim_end_seq(s@.subrange(i as int, j as int)),
        decreases j - i,
    {
        assert(s@.subrange(i as int, j as int).drop_last() == s@.subrange(i as int, j - 1));
        j = j - 1;
    }
    let mut out = String::new();
    append_range(&mut out, s, i, j);
    assert(out@ == s@.subrange(i as int, j as int));
    out
}


/// Position of the first `c` in `s`, or `s.len()` when there is none.
pub open spec fn index_of_char(s: Seq<char>, c: char) -> nat
    decreases s.len(),
{
    if s.len() == 0 {
        0
    } else if s[0] == c {
        0
    } else {
        1 + index_of_char(s.drop_first(), c)
    }
}

pub proof fn lemma_index_of_char(s: Seq<char>, c: char)
    ensures
        index_of_char(s, c) <= s.len(),
        forall|j: int| 0 <= j < index_of_char(s, c) ==> s[j] != c,
        index_of_char(s, c) < s.len() ==> s[index_of_char(s, c) as int] == c,
    decreases s.len(),
{
    if s.len() > 0 && s[0] != c {
        lemma_index_of_char(s.drop_first(), c);
        assert forall|j: int| 0 <= j < index_of_char(s, c) implies s[j] != c by {
            if j > 0 {
                assert(s[j] == s.drop_first()[j - 1]);
            }
        }
    }
}

pub proof fn lemma_index_of_char_at(s: Seq<char>, c: char, m: int)
    requires
        0 <= m <= s.len(),
        forall|j: int| 0 <= j < m ==> s[j] != c,
        m == s.len() || s[m] == c,
    ensures
        index_of_char(s, c) == m,
    decreases m,
{
    if m > 0 {
        assert forall|j: int| 0 <= j < m - 1 implies s.drop_first()[j] != c by {
            assert(s.drop_first()[j] == s[j + 1]);
        }
        lemma_index_of_char_at(s.drop_first(), c, m - 1);
    }
}

/// `t` without one trailing carriage return.
pub open spec fn strip_cr(t: Seq<char>) -> Seq<char> {
    if t.len() > 0 && t.last() == '\r' {
        t.drop_last()
    } else {
        t
    }
}

/// The lines that `str::lines` yields: pieces between line feeds, a carriage
/// return before a line feed dropped, no empty piece after a final line feed.
pub open spec fn lines_seq(s: Seq<char>) -> Seq<Seq<char>>
    decreases s.len(),
{
    if s.len() == 0 {
        seq![]
    } else {
        let k = index_of_char(s, '\n');
        if k < s.len() {
            seq![strip_cr(s.subrange(0, k as int))] + lines_seq(s.subrange(k as int + 1, s.len() as int))
        } else {
            seq![s]
        }
    }
}

/// The views of a sequence of strings.
pub open spec fn views(v: Seq<String>) -> Seq<Seq<char>> {
    v.map_values(|x: String| x@)
}

/// `str::lines`, collected into owned strings.
pub fn split_lines(s: &str) -> (r: Vec<String>)
    ensures
        views(r@) == lines_seq(s@),
{
    let n = s.unicode_len();
    let mut out: Vec<String> = Vec::new();
    let mut start: usize = 0;
    let mut i: usize = 0;
    assert(s@.subrange(0, n as int) == s@);
    while i < n
        invariant
            n == s@.len(),
            start <= i <= n,
            forall|j: int| start <= j < i ==> s@[j] != '\n',
            lines_seq(s@) == views(out@) + lines_seq(s@.subrange(start as int, n as int)),
        decreases n - i,
    {
        if s.get_char(i) == '\n' {
            let ghost rest = s@.subrange(start as int, n as int);
            proof {
                lemma_index_of_char_at(rest, '\n', i - start);
                assert(rest.subrange(0, i - start) == s@.subrange(start as int, i as int));
                assert(rest.subrange(i - start + 1, rest.len() as int) == s@.subrange(
                    i + 1,
                    n as int,
                ));
            }
            let mut end = i;
            if end > start && s.get_char(end - 1) == '\r' {
                end = end - 1;
            }
            let mut line = String::new();
            append_range(&mut line, s, start, end);
            assert(line@ == strip_cr(s@.subrange(start as int, i as int)));
            let ghost old_out = out@;
            out.push(line);
            assert(views(out@) == views(old_out) + seq![line@]);
            start = i + 1;
        }
        i = i + 1;
    }
    if start < n {
        let ghost rest = s@.subrange(start as int, n as int);
        proof {
            lemma_index_of_char_at(rest, '\n', rest.len() as int);
        }
        let mut line = String::new();
        append_range(&mut line, s, start, n);
        let ghost old_out = out@;
        out.push(line);
        assert(views(out@) == views(old_out) + seq![line@]);
    } else {
        assert(views(out@) + lines_seq(s@.subrange(start as int, n as int)) == views(out@));
    }
    out
}

/// `parts` joined with `sep` between neighbours.
pub open spec fn join_seq(parts: Seq<Seq<char>>, sep: Seq<char>) -> Seq<char>
    decreases parts.len(),
{
    if parts.len() == 0 {
        seq![]
    } else if parts.len() == 1 {
        parts[0]
    } else {
        parts[0] + sep + join_seq(parts.drop_first(), sep)
    }
}

proof fn lemma_join_push(parts: Seq<Seq<char>>, sep: Seq<char>, x: Seq<char>)
    requires
        parts.len() > 0,
    ensures
        join_seq(parts.push(x), sep) == join_seq(parts, sep) + sep + x,
    decreases parts.len(),
{
    if parts.len() > 1 {
        lemma_join_push(parts.drop_first(), sep, x);
        assert(parts.push(x).drop_first() == parts.drop_first().push(x));
        let j = join_seq(parts.drop_first(), sep);
        assert(parts[0] + sep + (j + sep + x) =~= parts[0] + sep + j + sep + x);
    } else {
        assert(parts.push(x).drop_first() == seq![x]);
        assert(join_seq(seq![x], sep) == x);
    }
}

/// `parts.join(sep)` for a one-character separator.
pub fn join_with(parts: &Vec<String>, sep: char) -> (r: String)
    ensures
        r@ == join_seq(views(parts@), seq![sep]),
{
    let mut out = String::new();
    let mut i: usize = 0;
    while i < parts.len()
        invariant
            i <= parts.len(),
            out@ == join_seq(views(parts@.subrange(0, i as int)), seq![sep]),
        decreases parts.len() - i,
    {
        let ghost before = views(parts@.subrange(0, i as int));
        if i > 0 {
            push_char(&mut out, sep);
        }
        out.append(parts[i].as_str());
        proof {
            let after = views(parts@.subrange(0, i + 1));
            assert(after == before.push(parts@[i as int]@));
            if i > 0 {
                lemma_join_push(before, seq![sep], parts@[i as int]@);
            } else {
                assert(after == seq![parts@[i as int]@]);
            }
        }
        i = i + 1;
    }
    assert(parts@.subrange(0, parts@.len() as int) == parts@);
    out
}


/// Position of the first element equal to `x`, or `s.len()` when there is none.
pub open spec fn first_index<A>(s: Seq<A>, x: A) -> nat
    decreases s.len(),
{
    if s.len() == 0 {
        0
    } else if s[0] == x {
        0
    } else {
        1 + first_index(s.drop_first(), x)
    }
}

pub proof fn lemma_first_index<A>(s: Seq<A>, x: A)
    ensures
        first_index(s, x) <= s.len(),
        forall|j: int| 0 <= j < first_index(s, x) ==> s[j] != x,
        first_index(s, x) < s.len() ==> s[first_index(s, x) as int] == x,
        first_index(s, x) < s.len() <==> s.contains(x),
    decreases s.len(),
{
    if s.len() > 0 && s[0] != x {
        lemma_first_index(s.drop_first(), x);
        assert forall|j: int| 0 <= j < first_index(s, x) implies s[j] != x by {
            if j > 0 {
                assert(s[j] == s.drop_first()[j - 1]);
            }
        }
        if s.contains(x) {
            let k = choose|k: int| 0 <= k < s.len() && s[k] == x;
            assert(s.drop_first()[k - 1] == x);
        }
        if s.drop_first().contains(x) {
            let k = choose|k: int| 0 <= k < s.drop_first().len() && s.drop_first()[k] == x;
            assert(s[k + 1] == x);
        }
    } else if s.len() > 0 {
        assert(s.contains(x)) by { assert(s[0] == x); }
    }
}

pub proof fn lemma_first_index_at<A>(s: Seq<A>, x: A, m: int)
    requires
        0 <= m <= s.len(),
        forall|j: int| 0 <= j < m ==> s[j] != x,
        m == s.len() || s[m] == x,
    ensures
        first_index(s, x) == m,
    decreases m,
{
    if m > 0 {
        assert forall|j: int| 0 <= j < m - 1 implies s.drop_first()[j] != x by {
            assert(s.drop_first()[j] == s[j + 1]);
        }
        lemma_first_index_at(s.drop_first(), x, m - 1);
    }
}


/// The character of a decimal digit.
pub open spec fn digit_char(d: nat) -> char {
    ((48 + d) as u8) as char
}

/// The decimal numeral of `n`, without leading zeros.
pub open spec fn decimal(n: nat) -> Seq<char>
    decreases n,
{
    if n < 10 {
        seq![digit_char(n)]
    } else {
        decimal(n / 10).push(digit_char(n % 10))
    }
}

proof fn lemma_digit_char(d: nat, e: nat)
    requires
        d < 10,
        e < 10,
    ensures
        48 <= digit_char(d) as u32 <= 57,
        digit_char(d) == digit_char(e) ==> d == e,
{
}

/// A decimal numeral is a non-empty run of the digits `0`..`9`.
pub proof fn lemma_decimal_digits(n: nat)
    ensures
        decimal(n).len() >= 1,
        forall|i: int| 0 <= i < decimal(n).len() ==> 48 <= #[trigger] decimal(n)[i] as u32 <= 57,
    decreases n,
{
    lemma_digit_char(n % 10, 0);
    if n >= 10 {
        lemma_decimal_digits(n / 10);
    }
}

/// Different numbers have different decimal numerals.
pub proof fn lemma_decimal_injective(n: nat, m: nat)
    requires
        decimal(n) == decimal(m),
    ensures
        n == m,
    decreases n,
{
    lemma_digit_char(n % 10, m % 10);
    if n >= 10 {
        lemma_decimal_digits(n / 10);
    }
    if m >= 10 {
        lemma_decimal_digits(m / 10);
    }
    if n >= 10 && m >= 10 {
        assert(decimal(n).drop_last() == decimal(n / 10));
        assert(decimal(m).drop_last() == decimal(m / 10));
        lemma_decimal_injective(n / 10, m / 10);
        assert(decimal(n).last() == digit_char(n % 10));
        assert(decimal(m).last() == digit_char(m % 10));
    } else if n >= 10 || m >= 10 {
        assert(decimal(n).len() != decimal(m).len());
    } else {
        assert(decimal(n)[0] == digit_char(n));
        assert(decimal(m)[0] == digit_char(m));
    }
}

/// The decimal numeral of a signed integer, as `Display` writes it.
pub open spec fn signed_decimal(n: int) -> Seq<char> {
    if n < 0 {
        seq!['-'] + decimal((-n) as nat)
    } else {
        decimal(n as nat)
    }
}

/// Different integers have different numerals.
pub proof fn lemma_signed_decimal_injective(n: int, m: int)
    requires
        signed_decimal(n) == signed_decimal(m),
    ensures
        n == m,
{
    if n < 0 {
        lemma_decimal_digits((-n) as nat);
    } else {
        lemma_decimal_digits(n as nat);
    }
    if m < 0 {
        lemma_decimal_digits((-m) as nat);
    } else {
        lemma_decimal_digits(m as nat);
    }
    assert(signed_decimal(n)[0] == signed_decimal(m)[0]);
    if n < 0 && m < 0 {
        assert(decimal((-n) as nat) =~= signed_decimal(n).drop_first());
        assert(decimal((-m) as nat) =~= signed_decimal(m).drop_first());
        lemma_decimal_injective((-n) as nat, (-m) as nat);
    } else if n >= 0 && m >= 0 {
        lemma_decimal_injective(n as nat, m as nat);
    } else if n < 0 {
        assert(signed_decimal(m)[0] == decimal(m as nat)[0]);
    } else {
        assert(signed_decimal(n)[0] == decimal(n as nat)[0]);
    }
}

/// What comes before the first separator `c` is determined: two texts that
/// each hold no `c`, both followed by `c` and more, agree up to there.
pub proof fn lemma_split_at(c: char, a: Seq<char>, b: Seq<char>, x: Seq<char>, y: Seq<char>)
    requires
        a + x == b + y,
        !a.contains(c),
        !b.contains(c),
        x.len() > 0 && x[0] == c,
        y.len() > 0 && y[0] == c,
    ensures
        a == b,
        x == y,
{
    if a.len() < b.len() {
        assert((a + x)[a.len() as int] == c);
        assert((b + y)[a.len() as int] == b[a.len() as int]);
        assert(b.contains(c));
    } else if b.len() < a.len() {
        assert((b + y)[b.len() as int] == c);
        assert((a + x)[b.len() as int] == a[b.len() as int]);
        assert(a.contains(c));
    } else {
        assert(a =~= (a + x).subrange(0, a.len() as int));
        assert(b =~= (b + y).subrange(0, b.len() as int));
        assert(x =~= (a + x).skip(a.len() as int));
        assert(y =~= (b + y).skip(b.len() as int));
    }
}

/// What follows the last separator `c` is determined: two texts that end
/// in `c` and then a run without `c` agree on both parts.
pub proof fn lemma_split_at_last(c: char, a: Seq<char>, b: Seq<char>, x: Seq<char>, y: Seq<char>)
    requires
        a + seq![c] + x == b + seq![c] + y,
        !x.contains(c),
        !y.contains(c),
    ensures
        a == b,
        x == y,
{
    let s = a + seq![c] + x;
    let n = s.len();
    if x.len() < y.len() {
        assert(s[n - x.len() - 1] == c);
        assert((b + seq![c] + y)[n - x.len() - 1] == y[y.len() - x.len() - 1]);
        assert(y.contains(c));
    } else if y.len() < x.len() {
        assert((b + seq![c] + y)[n - y.len() - 1] == c);
        assert(s[n - y.len() - 1] == x[x.len() - y.len() - 1]);
        assert(x.contains(c));
    } else {
        assert(a =~= s.subrange(0, a.len() as int));
        assert(b =~= (b + seq![c] + y).subrange(0, b.len() as int));
        assert(x =~= s.skip(n - x.len()));
        assert(y =~= (b + seq![c] + y).skip(n - y.len()));
    }
}

/// Joining with a separator loses nothing when the parts are non-empty and
/// hold no separator.
pub proof fn lemma_join_injective(c: char, p: Seq<Seq<char>>, q: Seq<Seq<char>>)
    requires
        join_seq(p, seq![c]) == join_seq(q, seq![c]),
        forall|i: int| 0 <= i < p.len() ==> (#[trigger] p[i]).len() > 0 && !p[i].contains(c),
        forall|i: int| 0 <= i < q.len() ==> (#[trigger] q[i]).len() > 0 && !q[i].contains(c),
    ensures
        p == q,
    decreases p.len(),
{
    let jp = join_seq(p, seq![c]);
    let jq = join_seq(q, seq![c]);
    if p.len() >= 2 {
        let rest_p = join_seq(p.drop_first(), seq![c]);
        assert(jp =~= p[0] + (seq![c] + rest_p));
    }
    if q.len() >= 2 {
        let rest_q = join_seq(q.drop_first(), seq![c]);
        assert(jq =~= q[0] + (seq![c] + rest_q));
    }
    if p.len() == 0 || q.len() == 0 {
        if p.len() > 0 {
            assert(p[0].len() > 0);
            assert(jp.len() > 0);
        }
        if q.len() > 0 {
            assert(q[0].len() > 0);
            assert(jq.len() > 0);
        }
        assert(p =~= q);
    } else if p.len() == 1 && q.len() == 1 {
        assert(p =~= q);
    } else if p.len() == 1 {
        assert(jq[q[0].len() as int] == c);
        assert(p[0].contains(c));
    } else if q.len() == 1 {
        assert(jp[p[0].len() as int] == c);
        assert(q[0].contains(c));
    } else {
        let rest_p = join_seq(p.drop_first(), seq![c]);
        let rest_q = join_seq(q.drop_first(), seq![c]);
        lemma_split_at(c, p[0], q[0], seq![c] + rest_p, seq![c] + rest_q);
        assert(rest_p =~= (seq![c] + rest_p).skip(1));
        assert(rest_q =~= (seq![c] + rest_q).skip(1));
        lemma_join_injective(c, p.drop_first(), q.drop_first());
        assert(p =~= seq![p[0]] + p.drop_first());
        assert(q =~= seq![q[0]] + q.drop_first());
    }
}

/// Appends the decimal numeral of `n`.
pub fn push_decimal(out: &mut String, n: u64)
    ensures
        final(out)@ == old(out)@ + decimal(n as nat),
    decreases n,
{
    if n >= 10 {
        push_decimal(out, n / 10);
    }
    let c = (48u8 + (n % 10) as u8) as char;
    push_char(out, c);
    assert(old(out)@ + decimal(n as nat) =~= if n >= 10 {
        old(out)@ + decimal((n / 10) as nat) + seq![c]
    } else {
        old(out)@ + seq![c]
    });
}

/// Appends the decimal numeral of a signed integer.
pub fn push_signed_decimal(out: &mut String, n: i64)
    ensures
        final(out)@ == old(out)@ + signed_decimal(n as int),
{
    if n < 0 {
        push_char(out, '-');
        let magnitude: u64 = (0i128 - n as i128) as u64;
        push_decimal(out, magnitude);
        assert(old(out)@ + signed_decimal(n as int) =~= old(out)@ + seq!['-'] + decimal(
            magnitude as nat,
        ));
    } else {
        push_decimal(out, n as u64);
    }
}

} // verus!
