use vstd::prelude::*;
use vstd::std_specs::iter::IteratorSpec;
use vstd::utf8::encode_utf8;

verus! {

broadcast use vstd::string::group_string_axioms;

/// The Unicode `White_Space` property.
pub open spec fn is_white(c: char) -> bool {
    let u = c as u32;
    (0x9 <= u <= 0xd) || u == 0x20 || u == 0x85 || u == 0xa0 || u == 0x1680 || (0x2000 <= u
        <= 0x200a) || u == 0x2028 || u == 0x2029 || u == 0x202f || u == 0x205f || u == 0x3000
}

pub fn is_whitespace_char(c: char) -> (r: bool)
    ensures
        r == is_white(c),
{
    let u = c as u32;
    (0x9 <= u && u <= 0xd) || u == 0x20 || u == 0x85 || u == 0xa0 || u == 0x1680 || (0x2000 <= u
        && u <= 0x200a) || u == 0x2028 || u == 0x2029 || u == 0x202f || u == 0x205f || u == 0x3000
}

/// `s` without its leading white space.
pub open spec fn trim_start(s: Seq<char>) -> Seq<char>
    decreases s.len(),
{
    if s.len() > 0 && is_white(s[0]) {
        trim_start(s.drop_first())
    } else {
        s
    }
}

/// `s` without its trailing white space.
pub open spec fn trim_end(s: Seq<char>) -> Seq<char>
    decreases s.len(),
{
    if s.len() > 0 && is_white(s.last()) {
        trim_end(s.drop_last())
    } else {
        s
    }
}

/// `s` without its leading and trailing white space.
pub open spec fn trim(s: Seq<char>) -> Seq<char> {
    trim_end(trim_start(s))
}

proof fn lemma_trim_end_shape(y: Seq<char>)
    ensures
        trim_end(y).len() == 0 || !is_white(trim_end(y).last()),
        (y.len() == 0 || !is_white(y[0])) ==> (trim_end(y).len() == 0 || trim_end(y)[0] == y[0]),
        trim_end(y).len() <= y.len(),
    decreases y.len(),
{
    if y.len() > 0 && is_white(y.last()) {
        lemma_trim_end_shape(y.drop_last());
        if y.len() >= 2 {
            assert(y.drop_last()[0] == y[0]);
        }
    }
}

proof fn lemma_trim_start_shape(x: Seq<char>)
    ensures
        trim_start(x).len() == 0 || !is_white(trim_start(x)[0]),
    decreases x.len(),
{
    if x.len() > 0 && is_white(x[0]) {
        lemma_trim_start_shape(x.drop_first());
    }
}

/// Trimming twice is trimming once.
pub proof fn lemma_trim_idempotent(x: Seq<char>)
    ensures
        trim(trim(x)) == trim(x),
{
    let u = trim_start(x);
    lemma_trim_start_shape(x);
    lemma_trim_end_shape(u);
    let v = trim_end(u);
    assert(trim_start(v) == v);
    lemma_trim_end_shape(v);
    if v.len() > 0 {
        assert(!is_white(v.last()));
    }
    assert(trim_end(v) == v);
}

/// UTF-8 takes at most four bytes per character.
pub proof fn lemma_encode_utf8_len(s: Seq<char>)
    ensures
        encode_utf8(s).len() <= 4 * s.len(),
    decreases s.len(),
{
    if s.len() > 0 {
        lemma_encode_utf8_len(s.drop_first());
        assert(vstd::utf8::encode_scalar(s[0] as u32).len() <= 4);
    }
}

/// UTF-8 of a concatenation is the concatenation of the encodings.
pub proof fn lemma_encode_utf8_concat(a: Seq<char>, b: Seq<char>)
    ensures
        encode_utf8(a + b) == encode_utf8(a) + encode_utf8(b),
    decreases a.len(),
{
    if a.len() == 0 {
        assert(a + b =~= b);
        assert(encode_utf8(a) =~= Seq::<u8>::empty());
        assert(encode_utf8(a) + encode_utf8(b) =~= encode_utf8(b));
    } else {
        lemma_encode_utf8_concat(a.drop_first(), b);
        assert((a + b).drop_first() =~= a.drop_first() + b);
        assert((a + b)[0] == a[0]);
        assert(encode_utf8(a + b) =~= encode_utf8(a) + encode_utf8(b));
    }
}

/// Appends one character to a string (`String::push`).
#[verifier::external_body]
pub fn push_char(s: &mut String, c: char)
    ensures
        final(s)@ == old(s)@.push(c),
{
    s.push(c);
}

/// The characters of a string slice, in order.
pub fn chars_of(s: &str) -> (v: Vec<char>)
    ensures
        v@ == s@,
{
    let mut it = s.chars();
    let mut v: Vec<char> = Vec::new();
    loop
        invariant
            v@ + IteratorSpec::remaining(&it) == s@,
            IteratorSpec::decrease(&it) is Some,
        decreases IteratorSpec::decrease(&it)->0,
    {
        let ghost before = it;
        match it.next() {
            Some(c) => {
                proof {
                    assert(IteratorSpec::remaining(&it) == IteratorSpec::remaining(&before).drop_first());
                    assert(v@.push(c) + IteratorSpec::remaining(&it) =~= v@ + IteratorSpec::remaining(&before));
                }
                v.push(c);
            },
            None => {
                assert(v@ =~= s@);
                return v;
            },
        }
    }
}

/// A string made of the given characters.
pub fn string_of(v: &[char]) -> (s: String)
    ensures
        s@ == v@,
{
    let mut s = String::new();
    let mut i: usize = 0;
    while i < v.len()
        invariant
            i <= v@.len(),
            s@ == v@.subrange(0, i as int),
        decreases v@.len() - i,
    {
        push_char(&mut s, v[i]);
        assert(v@.subrange(0, i + 1) =~= v@.subrange(0, i as int).push(v@[i as int]));
        i = i + 1;
    }
    assert(v@.subrange(0, v@.len() as int) =~= v@);
    s
}

proof fn lemma_trim_start_skip(s: Seq<char>, i: int)
    requires
        0 <= i < s.len(),
        is_white(s[i]),
    ensures
        trim_start(s.subrange(i, s.len() as int)) == trim_start(s.subrange(i + 1, s.len() as int)),
{
    let t = s.subrange(i, s.len() as int);
    assert(t.drop_first() =~= s.subrange(i + 1, s.len() as int));
}

proof fn lemma_trim_end_skip(s: Seq<char>, a: int, j: int)
    requires
        0 <= a < j <= s.len(),
        is_white(s[j - 1]),
    ensures
        trim_end(s.subrange(a, j)) == trim_end(s.subrange(a, j - 1)),
{
    let t = s.subrange(a, j);
    assert(t.drop_last() =~= s.subrange(a, j - 1));
}

/// The bounds `(a, b)` of `trim(s)` inside `s`.
pub fn trim_bounds(s: &[char]) -> (r: (usize, usize))
    ensures
        r.0 <= r.1 <= s@.len(),
        s@.subrange(r.0 as int, r.1 as int) == trim(s@),
{
    let n = s.len();
    let mut a: usize = 0;
    assert(s@.subrange(0, n as int) =~= s@);
    while a < n && is_whitespace_char(s[a])
        invariant
            a <= n == s@.len(),
            trim_start(s@) == trim_start(s@.subrange(a as int, n as int)),
        decreases n - a,
    {
        proof {
            lemma_trim_start_skip(s@, a as int);
        }
        a = a + 1;
    }
    assert(trim_start(s@) == s@.subrange(a as int, n as int));
    let mut b: usize = n;
    while b > a && is_whitespace_char(s[b - 1])
        invariant
            a <= b <= n == s@.len(),
            trim(s@) == trim_end(s@.subrange(a as int, b as int)),
        decreases b,
    {
        proof {
            lemma_trim_end_skip(s@, a as int, b as int);
        }
        b = b - 1;
    }
    (a, b)
}

/// `s` with leading and trailing white space removed (`str::trim`).
pub fn trim_chars(s: &[char]) -> (r: Vec<char>)
    ensures
        r@ == trim(s@),
{
    let (a, b) = trim_bounds(s);
    let mut r: Vec<char> = Vec::new();
    let mut i = a;
    while i < b
        invariant
            a <= i <= b <= s@.len(),
            r@ == s@.subrange(a as int, i as int),
        decreases b - i,
    {
        r.push(s[i]);
        assert(s@.subrange(a as int, i + 1) =~= s@.subrange(a as int, i as int).push(s@[i as int]));
        i = i + 1;
    }
    r
}

/// `s` with leading and trailing white space removed, as a new string.
pub fn trim_str(s: &str) -> (r: String)
    ensures
        r@ == trim(s@),
{
    let v = chars_of(s);
    let t = trim_chars(v.as_slice());
    string_of(t.as_slice())
}

/// `s` cut at every `sep`; the pieces do not hold the separators.
pub open spec fn split_on(s: Seq<char>, sep: char) -> Seq<Seq<char>>
    decreases s.len(),
{
    if s.len() == 0 {
        seq![Seq::empty()]
    } else {
        let p = split_on(s.drop_last(), sep);
        if s.last() == sep {
            p.push(Seq::empty())
        } else {
            p.update(p.len() - 1, p.last().push(s.last()))
        }
    }
}

/// Cutting text always gives at least one piece.
pub proof fn lemma_split_on_nonempty(s: Seq<char>, sep: char)
    ensures
        split_on(s, sep).len() >= 1,
    decreases s.len(),
{
    if s.len() > 0 {
        lemma_split_on_nonempty(s.drop_last(), sep);
    }
}

/// The pieces of `v` between the occurrences of `sep`.
pub fn split_chars(v: &[char], sep: char) -> (r: Vec<Vec<char>>)
    ensures
        r.deep_view() == split_on(v@, sep),
        r@.len() >= 1,
{
    let mut out: Vec<Vec<char>> = Vec::new();
    let mut cur: Vec<char> = Vec::new();
    let mut i: usize = 0;
    proof {
        lemma_split_on_nonempty(v@.subrange(0, 0), sep);
        assert(v@.subrange(0, 0) =~= Seq::<char>::empty());
        assert(out.deep_view() =~= Seq::<Seq<char>>::empty());
    }
    while i < v.len()
        invariant
            i <= v@.len(),
            split_on(v@.subrange(0, i as int), sep).len() >= 1,
            cur@ == split_on(v@.subrange(0, i as int), sep).last(),
            out.deep_view() == split_on(v@.subrange(0, i as int), sep).drop_last(),
        decreases v@.len() - i,
    {
        let ghost pre = v@.subrange(0, i as int);
        let ghost p = split_on(pre, sep);
        let c = v[i];
        proof {
            let next = v@.subrange(0, i + 1);
            assert(next.drop_last() =~= pre);
            assert(next.last() == c);
            lemma_split_on_nonempty(next, sep);
        }
        if c == sep {
            let done = cur;
            let ghost before = out.deep_view();
            let ghost old_v = out@;
            out.push(done);
            cur = Vec::new();
            proof {
                let q = p.push(Seq::<char>::empty());
                assert(q.drop_last() =~= p);
                assert(out.deep_view() =~= before.push(done@)) by {
                    assert forall|j: int| 0 <= j < out@.len() implies out.deep_view()[j] == before.push(done@)[j] by {
                        if j < before.len() {
                            assert(out@[j] == old_v[j]);
                        }
                    }
                }
                assert(p.drop_last().push(p.last()) =~= p);
                assert(out.deep_view() =~= p);
                assert(cur@ =~= q.last());
            }
        } else {
            cur.push(c);
            proof {
                let q = p.update(p.len() - 1, p.last().push(c));
                assert(q.drop_last() =~= p.drop_last());
            }
        }
        i = i + 1;
    }
    proof {
        let p = split_on(v@.subrange(0, i as int), sep);
        assert(v@.subrange(0, i as int) =~= v@);
        assert(p.drop_last().push(p.last()) =~= p);
    }
    let ghost before = out.deep_view();
    let ghost old_v = out@;
    let ghost last = cur@;
    out.push(cur);
    assert forall|j: int| 0 <= j < out@.len() implies out.deep_view()[j] == before.push(last)[j] by {
        if j < before.len() {
            assert(out@[j] == old_v[j]);
        }
    }
    assert(out.deep_view() =~= split_on(v@, sep));
    out
}

/// A sequence without `sep` is one piece.
pub proof fn lemma_split_on_single(y: Seq<char>, sep: char)
    requires
        !y.contains(sep),
    ensures
        split_on(y, sep) == seq![y],
    decreases y.len(),
{
    if y.len() > 0 {
        assert(!y.drop_last().contains(sep)) by {
            if y.drop_last().contains(sep) {
                let i = choose|i: int| 0 <= i < y.drop_last().len() && y.drop_last()[i] == sep;
                assert(y[i] == sep);
            }
        }
        lemma_split_on_single(y.drop_last(), sep);
        assert(y.last() != sep) by {
            assert(y[y.len() - 1] == y.last());
        }
        assert(y.drop_last().push(y.last()) =~= y);
    } else {
        assert(y =~= Seq::<char>::empty());
    }
}

/// Cutting `x`, `sep`, `y` where `y` holds no `sep` gives the pieces of `x` and then `y`.
pub proof fn lemma_split_on_append(x: Seq<char>, y: Seq<char>, sep: char)
    requires
        !y.contains(sep),
    ensures
        split_on(x + seq![sep] + y, sep) == split_on(x, sep).push(y),
    decreases y.len(),
{
    let s = x + seq![sep] + y;
    if y.len() == 0 {
        assert(s.drop_last() =~= x);
        assert(s =~= x + seq![sep]);
        assert(y =~= Seq::<char>::empty());
    } else {
        assert(!y.drop_last().contains(sep)) by {
            if y.drop_last().contains(sep) {
                let i = choose|i: int| 0 <= i < y.drop_last().len() && y.drop_last()[i] == sep;
                assert(y[i] == sep);
            }
        }
        lemma_split_on_append(x, y.drop_last(), sep);
        assert(s.drop_last() =~= x + seq![sep] + y.drop_last());
        assert(s.last() == y.last());
        assert(y.last() != sep) by {
            assert(y[y.len() - 1] == y.last());
        }
        lemma_split_on_nonempty(x, sep);
        assert(y.drop_last().push(y.last()) =~= y);
        assert(split_on(x, sep).push(y.drop_last()).update(
            split_on(x, sep).len() as int,
            y.drop_last().push(y.last()),
        ) =~= split_on(x, sep).push(y));
    }
}

/// Whether a trimmed line is kept: it is not blank and, when `skip_comments` holds, does
/// not start with `'#'`.
pub open spec fn keeps_line(t: Seq<char>, skip_comments: bool) -> bool {
    t.len() > 0 && !(skip_comments && t[0] == '#')
}

/// The kept lines among `lines`, each trimmed, in order.
pub open spec fn kept_lines(lines: Seq<Seq<char>>, skip_comments: bool) -> Seq<Seq<char>>
    decreases lines.len(),
{
    if lines.len() == 0 {
        Seq::empty()
    } else {
        let r = kept_lines(lines.drop_last(), skip_comments);
        let t = trim(lines.last());
        if keeps_line(t, skip_comments) {
            r.push(t)
        } else {
            r
        }
    }
}

/// The lines of `s`, trimmed, without the blank ones (and, when `skip_comments` holds,
/// without those that start with `'#'`).
pub open spec fn trimmed_lines(s: Seq<char>, skip_comments: bool) -> Seq<Seq<char>> {
    kept_lines(split_on(s, '\n'), skip_comments)
}

fn keep_line(out: &mut Vec<String>, line: &Vec<char>, skip_comments: bool)
    ensures
        final(out).deep_view() == (if keeps_line(trim(line@), skip_comments) {
            old(out).deep_view().push(trim(line@))
        } else {
            old(out).deep_view()
        }),
{
    let t = trim_chars(line.as_slice());
    if t.len() > 0 && !(skip_comments && t[0] == '#') {
        let s = string_of(t.as_slice());
        out.push(s);
        assert(out.deep_view() =~= old(out).deep_view().push(trim(line@)));
    }
}

/// Every kept line is trimmed and passes `keeps_line`.
pub proof fn lemma_kept_lines_clean(lines: Seq<Seq<char>>, skip_comments: bool)
    ensures
        forall|i: int|
            0 <= i < kept_lines(lines, skip_comments).len() ==> keeps_line(
                #[trigger] kept_lines(lines, skip_comments)[i],
                skip_comments,
            ) && trim(kept_lines(lines, skip_comments)[i]) == kept_lines(lines, skip_comments)[i],
    decreases lines.len(),
{
    if lines.len() > 0 {
        lemma_kept_lines_clean(lines.drop_last(), skip_comments);
        lemma_trim_idempotent(lines.last());
        let r = kept_lines(lines.drop_last(), skip_comments);
        let t = trim(lines.last());
        if keeps_line(t, skip_comments) {
            assert forall|i: int| 0 <= i < r.push(t).len() implies keeps_line(
                #[trigger] r.push(t)[i],
                skip_comments,
            ) && trim(r.push(t)[i]) == r.push(t)[i] by {
                if i < r.len() {
                    assert(r.push(t)[i] == r[i]);
                }
            }
        }
    }
}

/// The lines of `s` (cut at `'\\n'`), trimmed, keeping only those that `keeps_line` accepts.
pub fn lines_trimmed(s: &str, skip_comments: bool) -> (r: Vec<String>)
    ensures
        r.deep_view() == trimmed_lines(s@, skip_comments),
{
    let v = chars_of(s);
    let pieces = split_chars(v.as_slice(), '\n');
    let mut out: Vec<String> = Vec::new();
    let mut i: usize = 0;
    assert(out.deep_view() =~= Seq::<Seq<char>>::empty());
    while i < pieces.len()
        invariant
            i <= pieces@.len(),
            pieces.deep_view() == split_on(s@, '\n'),
            out.deep_view() == kept_lines(pieces.deep_view().subrange(0, i as int), skip_comments),
        decreases pieces@.len() - i,
    {
        proof {
            let q = pieces.deep_view().subrange(0, i + 1);
            assert(q.drop_last() =~= pieces.deep_view().subrange(0, i as int));
            assert(q.last() == pieces@[i as int]@);
        }
        keep_line(&mut out, &pieces[i], skip_comments);
        i = i + 1;
    }
    assert(pieces.deep_view().subrange(0, i as int) =~= pieces.deep_view());
    out
}

/// The digit `d` (below sixteen) as a lowercase character.
pub open spec fn digit_char(d: int) -> char {
    if d < 10 {
        (48 + d) as char
    } else {
        (87 + d) as char
    }
}

/// The digits of `n` in base `base` (2 to 16), most significant first, without leading
/// zeros.
pub open spec fn digits_of(n: nat, base: nat) -> Seq<char>
    decreases n,
{
    if base < 2 || n < base {
        seq![digit_char(n as int)]
    } else {
        proof {
            vstd::arithmetic::div_mod::lemma_div_decreases(n as int, base as int);
        }
        digits_of(n / base, base).push(digit_char((n % base) as int))
    }
}

fn digit_to_char(d: u64) -> (c: char)
    requires
        d < 16,
    ensures
        c == digit_char(d as int),
{
    if d < 10 {
        ((48 + d) as u8) as char
    } else {
        ((87 + d) as u8) as char
    }
}

/// Appends the digits of `n` in base `base` to `out`.
pub fn push_digits(out: &mut Vec<char>, n: u64, base: u64)
    requires
        2 <= base <= 16,
    ensures
        final(out)@ == old(out)@ + digits_of(n as nat, base as nat),
    decreases n,
{
    let ghost before = out@;
    if n >= base {
        proof {
            vstd::arithmetic::div_mod::lemma_div_decreases(n as int, base as int);
        }
        push_digits(out, n / base, base);
    }
    let c = digit_to_char(n % base);
    out.push(c);
    if n >= base {
        assert(digits_of(n as nat, base as nat) == digits_of((n / base) as nat, base as nat).push(c));
        assert(out@ =~= before + digits_of(n as nat, base as nat));
    } else {
        proof { vstd::arithmetic::div_mod::lemma_small_mod(n as nat, base as nat); }
        assert(digits_of(n as nat, base as nat) == seq![c]);
        assert(out@ =~= before + digits_of(n as nat, base as nat));
    }
}

proof fn lemma_digit_char(d: int)
    requires
        0 <= d < 10,
    ensures
        digit_char(d) as nat == 48 + d,
        is_dec_digit(digit_char(d)),
        d > 0 ==> digit_char(d) != '0',
{
}

/// The decimal digits of `n` form one digit run whose value is `n`, with no leading zero,
/// and at most as many digits as `n` needs.
pub proof fn lemma_decimal_digits(n: nat)
    ensures
        digits_of(n, 10).len() >= 1,
        forall|i: int| 0 <= i < digits_of(n, 10).len() ==> is_dec_digit(#[trigger] digits_of(n, 10)[i]),
        digit_run(digits_of(n, 10)) == digits_of(n, 10).len(),
        dec_value(digits_of(n, 10)) == n,
        digits_of(n, 10).len() > 1 ==> digits_of(n, 10)[0] != '0',
        n < 10 ==> digits_of(n, 10).len() == 1,
        n >= 10 ==> digits_of(n, 10).len() >= 2,
        n < 100 ==> digits_of(n, 10).len() <= 2,
        n < 1000 ==> digits_of(n, 10).len() <= 3,
    decreases n,
{
    let d = digits_of(n, 10);
    lemma_digit_char((n % 10) as int);
    if n >= 10 {
        lemma_decimal_digits(n / 10);
        lemma_digit_char(((n / 10) % 10) as int);
        let p = digits_of(n / 10, 10);
        assert(d == p.push(digit_char((n % 10) as int)));
        assert(d.drop_last() =~= p);
        assert forall|i: int| 0 <= i < d.len() implies is_dec_digit(#[trigger] d[i]) by {
            if i < p.len() {
                assert(d[i] == p[i]);
            }
        }
        if p.len() > 1 {
            assert(d[0] == p[0]);
        } else {
            assert(n / 10 < 10);
            assert((n / 10) % 10 == n / 10);
            assert(p[0] == digit_char((n / 10) as int));
            assert(d[0] == p[0]);
        }
        assert(dec_value(d) == dec_value(p) * 10 + (n % 10));
        assert((n / 10) * 10 + n % 10 == n) by (nonlinear_arith);
    } else {
        assert(n % 10 == n);
        assert(d =~= seq![digit_char(n as int)]);
        assert(d.drop_last() =~= Seq::<char>::empty());
        assert(dec_value(d) == dec_value(d.drop_last()) * 10 + (d.last() as nat - 48) as nat);
        assert(d.last() == digit_char(n as int));
    }
    lemma_digit_run_facts(d);
    if digit_run(d) < d.len() {
        assert(is_dec_digit(d[digit_run(d) as int]));
    }
}

/// `n` in decimal.
pub fn decimal_string(n: u64) -> (s: String)
    ensures
        s@ == digits_of(n as nat, 10),
{
    let mut v: Vec<char> = Vec::new();
    push_digits(&mut v, n, 10);
    assert(v@ =~= digits_of(n as nat, 10));
    string_of(v.as_slice())
}

pub open spec fn is_dec_digit(c: char) -> bool {
    '0' <= c <= '9'
}

/// The number of leading decimal digits of `s`.
pub open spec fn digit_run(s: Seq<char>) -> nat
    decreases s.len(),
{
    if s.len() > 0 && is_dec_digit(s[0]) {
        1 + digit_run(s.drop_first())
    } else {
        0
    }
}

/// The value of a run of decimal digits.
pub open spec fn dec_value(s: Seq<char>) -> nat
    decreases s.len(),
{
    if s.len() == 0 {
        0
    } else {
        dec_value(s.drop_last()) * 10 + (s.last() as nat - 48) as nat
    }
}

/// Why text is not an unsigned integer.
#[derive(Debug, Clone, Copy, PartialEq, Eq, Structural)]
pub enum IntErrorKind {
    Empty,
    InvalidDigit,
    PosOverflow,
}

/// An unsigned integer no larger than `max` written in decimal, with an optional leading
/// `'+'`. The first fault met from the left decides the error: leading digits that already
/// exceed `max` give `PosOverflow`, a character that is not a digit gives `InvalidDigit`.
pub open spec fn spec_parse_unsigned(s: Seq<char>, max: nat) -> Result<nat, IntErrorKind> {
    if s.len() == 0 {
        Err(IntErrorKind::Empty)
    } else if s =~= seq!['+'] || s =~= seq!['-'] {
        Err(IntErrorKind::InvalidDigit)
    } else {
        let d = if s[0] == '+' {
            s.drop_first()
        } else {
            s
        };
        let k = digit_run(d);
        if dec_value(d.subrange(0, k as int)) > max {
            Err(IntErrorKind::PosOverflow)
        } else if k < d.len() {
            Err(IntErrorKind::InvalidDigit)
        } else {
            Ok(dec_value(d))
        }
    }
}

/// The leading digit run holds only digits and stops at a non-digit or at the end.
pub proof fn lemma_digit_run_facts(s: Seq<char>)
    ensures
        digit_run(s) <= s.len(),
        forall|t: int| 0 <= t < digit_run(s) ==> is_dec_digit(#[trigger] s[t]),
        digit_run(s) < s.len() ==> !is_dec_digit(s[digit_run(s) as int]),
    decreases s.len(),
{
    if s.len() > 0 && is_dec_digit(s[0]) {
        lemma_digit_run_facts(s.drop_first());
        assert forall|t: int| 0 <= t < digit_run(s) implies is_dec_digit(#[trigger] s[t]) by {
            if t > 0 {
                assert(s[t] == s.drop_first()[t - 1]);
            }
        }
    }
}

proof fn lemma_digit_run_step(d: Seq<char>, i: int)
    requires
        0 <= i < d.len(),
    ensures
        digit_run(d.subrange(i, d.len() as int)) == (if is_dec_digit(d[i]) {
            1 + digit_run(d.subrange(i + 1, d.len() as int))
        } else {
            0
        }),
{
    assert(d.subrange(i, d.len() as int).drop_first() =~= d.subrange(i + 1, d.len() as int));
}

/// A longer prefix of a digit run has at least the value of a shorter one.
pub proof fn lemma_dec_value_mono(d: Seq<char>, j: int, k: int)
    requires
        0 <= j <= k <= d.len(),
        forall|t: int| 0 <= t < k ==> is_dec_digit(#[trigger] d[t]),
    ensures
        dec_value(d.subrange(0, j)) <= dec_value(d.subrange(0, k)),
    decreases k - j,
{
    if j < k {
        lemma_dec_value_mono(d, j, k - 1);
        assert(d.subrange(0, k).drop_last() =~= d.subrange(0, k - 1));
    }
}

/// The value of `t` when it is made of decimal digits only (the empty run has value 0) and
/// the value is at most `max`.
pub fn decimal_value(t: &[char], max: u64) -> (r: Option<u64>)
    ensures
        r is Some <==> (digit_run(t@) == t@.len() && dec_value(t@) <= max),
        r matches Some(v) ==> v == dec_value(t@),
{
    let n = t.len();
    let mut acc: u128 = 0;
    let mut i: usize = 0;
    proof {
        lemma_digit_run_facts(t@);
        assert(t@.subrange(0, 0) =~= Seq::<char>::empty());
    }
    while i < n
        invariant
            i <= n == t@.len(),
            acc == dec_value(t@.subrange(0, i as int)),
            acc <= max,
            forall|j: int| 0 <= j < i ==> is_dec_digit(#[trigger] t@[j]),
            digit_run(t@) <= t@.len(),
            forall|j: int| 0 <= j < digit_run(t@) ==> is_dec_digit(#[trigger] t@[j]),
            digit_run(t@) < t@.len() ==> !is_dec_digit(t@[digit_run(t@) as int]),
        decreases n - i,
    {
        let c = t[i];
        if !('0' <= c && c <= '9') {
            assert(digit_run(t@) != t@.len());
            return None;
        }
        assert(t@.subrange(0, i + 1).drop_last() =~= t@.subrange(0, i as int));
        let next = acc * 10 + (c as u32 - 48) as u128;
        if next > max as u128 {
            proof {
                if digit_run(t@) == t@.len() {
                    lemma_dec_value_mono(t@, i + 1, n as int);
                    assert(t@.subrange(0, n as int) =~= t@);
                }
            }
            return None;
        }
        acc = next;
        i = i + 1;
    }
    assert(t@.subrange(0, n as int) =~= t@);
    proof {
        if digit_run(t@) < t@.len() {
            assert(is_dec_digit(t@[digit_run(t@) as int]));
        }
    }
    Some(acc as u64)
}

/// Decimal text reads back as the number it shows.
pub proof fn lemma_parse_decimal(n: nat, max: nat)
    requires
        n <= max,
    ensures
        spec_parse_unsigned(digits_of(n, 10), max) == Ok::<nat, IntErrorKind>(n),
{
    let d = digits_of(n, 10);
    lemma_decimal_digits(n);
    assert(d[0] != '+' && d[0] != '-');
    assert(!(d =~= seq!['+']) && !(d =~= seq!['-']));
    assert(d.subrange(0, d.len() as int) =~= d);
}

/// Reads an unsigned integer no larger than `max` (`str::parse` for unsigned types).
pub fn parse_unsigned(s: &str, max: u64) -> (r: Result<u64, IntErrorKind>)
    ensures
        r matches Ok(v) ==> v <= max,
        match (r, spec_parse_unsigned(s@, max as nat)) {
            (Ok(v), Ok(w)) => v == w,
            (Err(e), Err(f)) => e == f,
            _ => false,
        },
{
    let v = chars_of(s);
    let n = v.len();
    if n == 0 {
        return Err(IntErrorKind::Empty);
    }
    if n == 1 && (v[0] == '+' || v[0] == '-') {
        assert(s@ =~= seq!['+'] || s@ =~= seq!['-']);
        return Err(IntErrorKind::InvalidDigit);
    }
    assert(!(s@ =~= seq!['+']) && !(s@ =~= seq!['-']));
    let start: usize = if v[0] == '+' { 1 } else { 0 };
    let ghost d = if s@[0] == '+' { s@.drop_first() } else { s@ };
    assert(d =~= v@.subrange(start as int, n as int));
    let mut acc: u128 = 0;
    let mut i = start;
    assert(d.subrange(0, 0) =~= Seq::<char>::empty());
    assert(d.subrange(0, d.len() as int) =~= d);
    while i < n
        invariant
            start <= i <= n == v@.len(),
            v@ == s@,
            d =~= v@.subrange(start as int, n as int),
            s@.len() > 0,
            !(s@ =~= seq!['+']) && !(s@ =~= seq!['-']),
            d == (if s@[0] == '+' { s@.drop_first() } else { s@ }),
            max <= u64::MAX,
            acc == dec_value(d.subrange(0, i - start)),
            acc <= max,
            forall|t: int| 0 <= t < i - start ==> is_dec_digit(#[trigger] d[t]),
            digit_run(d) == (i - start) + digit_run(d.subrange(i - start, d.len() as int)),
        decreases n - i,
    {
        let c = v[i];
        let ghost j = i - start;
        proof {
            lemma_digit_run_step(d, j);
            lemma_digit_run_facts(d);
        }
        if !('0' <= c && c <= '9') {
            assert(digit_run(d) == j);
            assert(dec_value(d.subrange(0, digit_run(d) as int)) == acc);
            assert(j < d.len());
            return Err(IntErrorKind::InvalidDigit);
        }
        let dv = (c as u32 - 48) as u128;
        let next = acc * 10 + dv;
        assert(d.subrange(0, j + 1).drop_last() =~= d.subrange(0, j));
        if next > max as u128 {
            proof {
                lemma_dec_value_mono(d, j + 1, digit_run(d) as int);
            }
            return Err(IntErrorKind::PosOverflow);
        }
        acc = next;
        i = i + 1;
    }
    assert(digit_run(d) == d.len()) by {
        assert(d.subrange(d.len() as int, d.len() as int).len() == 0);
    }
    Ok(acc as u64)
}

/// The message that `ParseIntError` shows for each kind.
pub fn int_error_message(kind: IntErrorKind) -> (s: String)
    ensures
        kind == IntErrorKind::Empty ==> s@ == "cannot parse integer from empty string"@,
        kind == IntErrorKind::InvalidDigit ==> s@ == "invalid digit found in string"@,
        kind == IntErrorKind::PosOverflow ==> s@ == "number too large to fit in target type"@,
{
    match kind {
        IntErrorKind::Empty => String::from_str("cannot parse integer from empty string"),
        IntErrorKind::InvalidDigit => String::from_str("invalid digit found in string"),
        IntErrorKind::PosOverflow => String::from_str("number too large to fit in target type"),
    }
}

/// ASCII letters lowered, other characters kept.
pub open spec fn ascii_lower(c: char) -> char {
    if 'A' <= c <= 'Z' {
        ((c as u32) + 32) as char
    } else {
        c
    }
}

/// ASCII letters raised, other characters kept.
pub open spec fn ascii_upper(c: char) -> char {
    if 'a' <= c <= 'z' {
        ((c as u32) - 32) as char
    } else {
        c
    }
}

pub fn lower_char(c: char) -> (r: char)
    ensures
        r == ascii_lower(c),
{
    if 'A' <= c && c <= 'Z' {
        ((c as u32 + 32) as u8) as char
    } else {
        c
    }
}

pub fn upper_char(c: char) -> (r: char)
    ensures
        r == ascii_upper(c),
{
    if 'a' <= c && c <= 'z' {
        ((c as u32 - 32) as u8) as char
    } else {
        c
    }
}

/// `s` with its ASCII letters lowered (`str::to_ascii_lowercase`).
pub fn to_ascii_lowercase(s: &str) -> (r: String)
    ensures
        r@ == s@.map_values(|c: char| ascii_lower(c)),
{
    let v = chars_of(s);
    let mut out: Vec<char> = Vec::new();
    let mut i: usize = 0;
    while i < v.len()
        invariant
            i <= v@.len(),
            v@ == s@,
            out@ == v@.subrange(0, i as int).map_values(|c: char| ascii_lower(c)),
        decreases v@.len() - i,
    {
        out.push(lower_char(v[i]));
        assert(v@.subrange(0, i + 1).map_values(|c: char| ascii_lower(c)) =~= v@.subrange(
            0,
            i as int,
        ).map_values(|c: char| ascii_lower(c)).push(ascii_lower(v@[i as int])));
        i = i + 1;
    }
    assert(v@.subrange(0, v@.len() as int) =~= v@);
    string_of(out.as_slice())
}

/// `s` with its ASCII letters raised (`str::to_ascii_uppercase`).
pub fn to_ascii_uppercase(s: &str) -> (r: String)
    ensures
        r@ == s@.map_values(|c: char| ascii_upper(c)),
{
    let v = chars_of(s);
    let mut out: Vec<char> = Vec::new();
    let mut i: usize = 0;
    while i < v.len()
        invariant
            i <= v@.len(),
            v@ == s@,
            out@ == v@.subrange(0, i as int).map_values(|c: char| ascii_upper(c)),
        decreases v@.len() - i,
    {
        out.push(upper_char(v[i]));
        assert(v@.subrange(0, i + 1).map_values(|c: char| ascii_upper(c)) =~= v@.subrange(
            0,
            i as int,
        ).map_values(|c: char| ascii_upper(c)).push(ascii_upper(v@[i as int])));
        i = i + 1;
    }
    assert(v@.subrange(0, v@.len() as int) =~= v@);
    string_of(out.as_slice())
}

/// Equality up to ASCII case.
pub open spec fn eq_ascii_nocase(a: Seq<char>, b: Seq<char>) -> bool {
    a.len() == b.len() && forall|i: int| 0 <= i < a.len() ==> ascii_lower(#[trigger] a[i]) == ascii_lower(b[i])
}

/// `str::eq_ignore_ascii_case`.
pub fn eq_ignore_ascii_case(a: &str, b: &str) -> (r: bool)
    ensures
        r == eq_ascii_nocase(a@, b@),
{
    let x = chars_of(a);
    let y = chars_of(b);
    if x.len() != y.len() {
        return false;
    }
    let mut i: usize = 0;
    while i < x.len()
        invariant
            i <= x@.len() == y@.len(),
            x@ == a@,
            y@ == b@,
            forall|t: int| 0 <= t < i ==> ascii_lower(#[trigger] x@[t]) == ascii_lower(y@[t]),
        decreases x@.len() - i,
    {
        if lower_char(x[i]) != lower_char(y[i]) {
            return false;
        }
        i = i + 1;
    }
    true
}

/// Whether two strings hold the same characters.
pub fn same_text(a: &str, b: &str) -> (r: bool)
    ensures
        r == (a@ == b@),
{
    let x = chars_of(a);
    let y = chars_of(b);
    if x.len() != y.len() {
        return false;
    }
    let mut i: usize = 0;
    while i < x.len()
        invariant
            i <= x@.len() == y@.len(),
            x@ == a@,
            y@ == b@,
            forall|t: int| 0 <= t < i ==> x@[t] == y@[t],
        decreases x@.len() - i,
    {
        if x[i] != y[i] {
            return false;
        }
        i = i + 1;
    }
    assert(x@ =~= y@);
    true
}

/// Whether `s` begins with `prefix`.
pub fn starts_with(s: &[char], prefix: &str) -> (r: bool)
    ensures
        r == (prefix@.len() <= s@.len() && s@.subrange(0, prefix@.len() as int) == prefix@),
{
    let p = chars_of(prefix);
    if p.len() > s.len() {
        return false;
    }
    let mut i: usize = 0;
    while i < p.len()
        invariant
            i <= p@.len() <= s@.len(),
            p@ == prefix@,
            forall|t: int| 0 <= t < i ==> s@[t] == p@[t],
        decreases p@.len() - i,
    {
        if s[i] != p[i] {
            assert(s@.subrange(0, p@.len() as int)[i as int] != p@[i as int]);
            return false;
        }
        i = i + 1;
    }
    assert(s@.subrange(0, p@.len() as int) =~= p@);
    true
}

} // verus!
