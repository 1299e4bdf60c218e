use crate::text::{chars_of, digit_char, string_of};
use vstd::prelude::*;
use vstd::string::StringExecFns;

verus! {

broadcast use vstd::string::group_string_axioms;

/// One character inside a JSON string: `"` and `\` behind a backslash; backspace, tab,
/// line feed, form feed and carriage return as `\b`, `\t`, `\n`, `\f`, `\r`; the other
/// control characters as `\u00XX` in lowercase hexadecimal; every other character as it is.
pub open spec fn json_escape_char(c: char) -> Seq<char> {
    if c == '"' {
        seq!['\\', '"']
    } else if c == '\\' {
        seq!['\\', '\\']
    } else if c == '\x08' {
        seq!['\\', 'b']
    } else if c == '\t' {
        seq!['\\', 't']
    } else if c == '\n' {
        seq!['\\', 'n']
    } else if c == '\x0c' {
        seq!['\\', 'f']
    } else if c == '\r' {
        seq!['\\', 'r']
    } else if (c as u32) < 0x20 {
        seq!['\\', 'u', '0', '0', digit_char((c as u32 / 16) as int), digit_char((c as u32 % 16) as int)]
    } else {
        seq![c]
    }
}

/// The characters of `s` as they stand inside a JSON string.
pub open spec fn json_escape(s: Seq<char>) -> Seq<char>
    decreases s.len(),
{
    if s.len() == 0 {
        Seq::empty()
    } else {
        json_escape(s.drop_last()) + json_escape_char(s.last())
    }
}

/// `s` as a JSON string.
pub open spec fn json_str(s: Seq<char>) -> Seq<char> {
    seq!['"'] + json_escape(s) + seq!['"']
}

/// JSON texts separated by commas.
pub open spec fn json_join(items: Seq<Seq<char>>) -> Seq<char>
    decreases items.len(),
{
    if items.len() == 0 {
        Seq::empty()
    } else if items.len() == 1 {
        items[0]
    } else {
        json_join(items.drop_last()) + seq![','] + items.last()
    }
}

/// A JSON object of the given members.
pub open spec fn json_obj(members: Seq<Seq<char>>) -> Seq<char> {
    seq!['{'] + json_join(members) + seq!['}']
}

/// A JSON array of the given items.
pub open spec fn json_arr(items: Seq<Seq<char>>) -> Seq<char> {
    seq!['['] + json_join(items) + seq![']']
}

/// An object member: the key as a JSON string, a colon, the value's text.
pub open spec fn json_member(key: Seq<char>, value: Seq<char>) -> Seq<char> {
    json_str(key) + seq![':'] + value
}

/// `true` or `false`.
pub open spec fn json_bool(b: bool) -> Seq<char> {
    if b {
        "true"@
    } else {
        "false"@
    }
}

/// `s` as a JSON string.
pub fn json_string(s: &str) -> (r: String)
    ensures
        r@ == json_str(s@),
{
    let v = chars_of(s);
    let mut out: Vec<char> = Vec::new();
    out.push('"');
    let mut i: usize = 0;
    while i < v.len()
        invariant
            i <= v@.len(),
            out@ == seq!['"'] + json_escape(v@.subrange(0, i as int)),
        decreases v@.len() - i,
    {
        let c = v[i];
        let ghost before = out@;
        if c == '"' {
            out.push('\\');
            out.push('"');
        } else if c == '\\' {
            out.push('\\');
            out.push('\\');
        } else if c == '\x08' {
            out.push('\\');
            out.push('b');
        } else if c == '\t' {
            out.push('\\');
            out.push('t');
        } else if c == '\n' {
            out.push('\\');
            out.push('n');
        } else if c == '\x0c' {
            out.push('\\');
            out.push('f');
        } else if c == '\r' {
            out.push('\\');
            out.push('r');
        } else if (c as u32) < 0x20 {
            let u = c as u32;
            out.push('\\');
            out.push('u');
            out.push('0');
            out.push('0');
            out.push(if u >= 16 { '1' } else { '0' });
            let low = u % 16;
            let d = if low < 10 {
                ((48 + low) as u8) as char
            } else {
                ((87 + low) as u8) as char
            };
            out.push(d);
            proof {
                assert(u / 16 == (if u >= 16 { 1u32 } else { 0u32 }));
                assert(digit_char((u / 16) as int) == (if u >= 16 { '1' } else { '0' }));
                assert(digit_char((u % 16) as int) == d);
            }
        } else {
            out.push(c);
        }
        proof {
            let w = v@.subrange(0, i + 1);
            assert(w.drop_last() =~= v@.subrange(0, i as int));
            assert(w.last() == c);
            assert(out@ =~= before + json_escape_char(c));
        }
        i = i + 1;
    }
    out.push('"');
    assert(v@.subrange(0, i as int) =~= s@);
    string_of(out.as_slice())
}

/// The items joined by commas between `open` and `close`.
fn joined(items: &Vec<String>, open: char, close: char) -> (r: String)
    ensures
        r@ == seq![open] + json_join(items.deep_view()) + seq![close],
{
    let mut out = string_of(&[open]);
    let mut i: usize = 0;
    assert(items.deep_view().subrange(0, 0) =~= Seq::<Seq<char>>::empty());
    while i < items.len()
        invariant
            i <= items@.len(),
            out@ == seq![open] + json_join(items.deep_view().subrange(0, i as int)),
        decreases items@.len() - i,
    {
        let ghost prev = items.deep_view().subrange(0, i as int);
        let ghost next = items.deep_view().subrange(0, i + 1);
        assert(next.drop_last() =~= prev);
        assert(next.last() == items@[i as int]@);
        let ghost before = out@;
        if i > 0 {
            out = out.concat(",");
        }
        out = out.concat(items[i].as_str());
        proof {
            reveal_strlit(",");
            if i == 0 {
                assert(json_join(prev) =~= Seq::<char>::empty());
                assert(next.len() == 1);
                assert(json_join(next) == next[0]);
                assert(out@ =~= seq![open] + json_join(next));
            } else {
                assert(","@ =~= seq![',']);
                assert(json_join(next) == json_join(prev) + seq![','] + next.last());
                assert(out@ =~= seq![open] + json_join(next));
            }
        }
        i = i + 1;
    }
    assert(items.deep_view().subrange(0, i as int) =~= items.deep_view());
    let close_text = string_of(&[close]);
    out.concat(close_text.as_str())
}

/// A JSON object of the given members.
pub fn json_object(members: &Vec<String>) -> (r: String)
    ensures
        r@ == json_obj(members.deep_view()),
{
    joined(members, '{', '}')
}

/// A JSON array of the given items.
pub fn json_array(items: &Vec<String>) -> (r: String)
    ensures
        r@ == json_arr(items.deep_view()),
{
    joined(items, '[', ']')
}

/// An object member with the given key and value text.
pub fn member(key: &str, value: &str) -> (r: String)
    ensures
        r@ == json_member(key@, value@),
{
    proof {
        reveal_strlit(":");
        assert(":"@ =~= seq![':']);
    }
    json_string(key).concat(":").concat(value)
}

/// `true` or `false`.
pub fn json_boolean(b: bool) -> (r: String)
    ensures
        r@ == json_bool(b),
{
    if b {
        String::from_str("true")
    } else {
        String::from_str("false")
    }
}

/// Appends a text to a list of texts.
pub fn push_text(v: &mut Vec<String>, s: String)
    ensures
        final(v).deep_view() == old(v).deep_view().push(s@),
{
    let ghost before = v.deep_view();
    let ghost sv = s@;
    v.push(s);
    assert(v.deep_view() =~= before.push(sv));
}

/// A list of one text.
pub fn texts1(a: String) -> (r: Vec<String>)
    ensures
        r.deep_view() == seq![a@],
{
    let mut v: Vec<String> = Vec::new();
    push_text(&mut v, a);
    assert(v.deep_view() =~= seq![a@]);
    v
}

/// A list of two texts.
pub fn texts2(a: String, b: String) -> (r: Vec<String>)
    ensures
        r.deep_view() == seq![a@, b@],
{
    let ghost (x, y) = (a@, b@);
    let mut v = texts1(a);
    push_text(&mut v, b);
    assert(v.deep_view() =~= seq![x, y]);
    v
}

/// A list of three texts.
pub fn texts3(a: String, b: String, c: String) -> (r: Vec<String>)
    ensures
        r.deep_view() == seq![a@, b@, c@],
{
    let ghost (x, y, z) = (a@, b@, c@);
    let mut v = texts2(a, b);
    push_text(&mut v, c);
    assert(v.deep_view() =~= seq![x, y, z]);
    v
}

/// A list of four texts.
pub fn texts4(a: String, b: String, c: String, d: String) -> (r: Vec<String>)
    ensures
        r.deep_view() == seq![a@, b@, c@, d@],
{
    let ghost (x, y, z, w) = (a@, b@, c@, d@);
    let mut v = texts3(a, b, c);
    push_text(&mut v, d);
    assert(v.deep_view() =~= seq![x, y, z, w]);
    v
}

/// The texts of `a` followed by those of `b`.
pub fn concat_texts(a: Vec<String>, b: Vec<String>) -> (r: Vec<String>)
    ensures
        r.deep_view() == a.deep_view() + b.deep_view(),
{
    let mut r = a;
    let ghost start = r.deep_view();
    let mut i: usize = 0;
    while i < b.len()
        invariant
            i <= b@.len(),
            r.deep_view() == start + b.deep_view().subrange(0, i as int),
        decreases b@.len() - i,
    {
        let ghost before = r.deep_view();
        push_text(&mut r, b[i].clone());
        assert(start + b.deep_view().subrange(0, i + 1) =~= before.push(b@[i as int]@));
        i = i + 1;
    }
    assert(b.deep_view().subrange(0, i as int) =~= b.deep_view());
    r
}

/// The empty list of texts.
pub fn no_texts() -> (r: Vec<String>)
    ensures
        r.deep_view() == Seq::<Seq<char>>::empty(),
{
    let v: Vec<String> = Vec::new();
    assert(v.deep_view() =~= Seq::<Seq<char>>::empty());
    v
}

/// `x` stands somewhere in `t` as a run of consecutive characters.
pub open spec fn has_piece(t: Seq<char>, x: Seq<char>) -> bool {
    exists|i: int| 0 <= i && i + x.len() <= t.len() && #[trigger] t.subrange(i, i + x.len()) == x
}

/// The middle of a concatenation stands in it.
pub proof fn lemma_piece_middle(a: Seq<char>, x: Seq<char>, b: Seq<char>)
    ensures
        has_piece(a + x + b, x),
{
    let t = a + x + b;
    assert(t.subrange(a.len() as int, a.len() + x.len() as int) =~= x);
}

/// What stands in a piece of `t` stands in `t`.
pub proof fn lemma_piece_trans(t: Seq<char>, u: Seq<char>, x: Seq<char>)
    requires
        has_piece(t, u),
        has_piece(u, x),
    ensures
        has_piece(t, x),
{
    let i = choose|i: int| 0 <= i && i + u.len() <= t.len() && #[trigger] t.subrange(i, i + u.len()) == u;
    let j = choose|j: int| 0 <= j && j + x.len() <= u.len() && #[trigger] u.subrange(j, j + x.len()) == x;
    assert(t.subrange(i + j, i + j + x.len()) =~= x);
}

/// Each item stands in the items joined by commas.
pub proof fn lemma_join_has_item(items: Seq<Seq<char>>, k: int)
    requires
        0 <= k < items.len(),
    ensures
        has_piece(json_join(items), items[k]),
    decreases items.len(),
{
    if items.len() == 1 {
        lemma_piece_middle(Seq::empty(), items[0], Seq::empty());
        assert(Seq::<char>::empty() + items[0] + Seq::<char>::empty() =~= items[0]);
    } else if k == items.len() - 1 {
        lemma_piece_middle(json_join(items.drop_last()) + seq![','], items.last(), Seq::empty());
        assert(json_join(items.drop_last()) + seq![','] + items.last() + Seq::<char>::empty()
            =~= json_join(items));
    } else {
        lemma_join_has_item(items.drop_last(), k);
        lemma_piece_middle(Seq::empty(), json_join(items.drop_last()), seq![','] + items.last());
        assert(Seq::<char>::empty() + json_join(items.drop_last()) + (seq![','] + items.last())
            =~= json_join(items));
        lemma_piece_trans(json_join(items), json_join(items.drop_last()), items[k]);
    }
}

/// Each member stands in an object, and each item in an array.
pub proof fn lemma_container_has(items: Seq<Seq<char>>, k: int)
    requires
        0 <= k < items.len(),
    ensures
        has_piece(json_obj(items), items[k]),
        has_piece(json_arr(items), items[k]),
{
    lemma_join_has_item(items, k);
    lemma_piece_middle(seq!['{'], json_join(items), seq!['}']);
    lemma_piece_middle(seq!['['], json_join(items), seq![']']);
    lemma_piece_trans(json_obj(items), json_join(items), items[k]);
    lemma_piece_trans(json_arr(items), json_join(items), items[k]);
}

/// A member's value stands in the member.
pub proof fn lemma_member_has_value(key: Seq<char>, value: Seq<char>)
    ensures
        has_piece(json_member(key, value), value),
{
    lemma_piece_middle(json_str(key) + seq![':'], value, Seq::empty());
    assert(json_str(key) + seq![':'] + value + Seq::<char>::empty() =~= json_member(key, value));
}

/// Text without `"`, `\` or control characters stands in a JSON string as it is.
pub proof fn lemma_plain_escape(s: Seq<char>)
    requires
        forall|i: int| 0 <= i < s.len() ==> #[trigger] s[i] != '"' && s[i] != '\\' && s[i] as u32 >= 0x20,
    ensures
        json_escape(s) == s,
    decreases s.len(),
{
    if s.len() > 0 {
        assert forall|i: int| 0 <= i < s.drop_last().len() implies #[trigger] s.drop_last()[i] != '"'
            && s.drop_last()[i] != '\\' && s.drop_last()[i] as u32 >= 0x20 by {
            assert(s.drop_last()[i] == s[i]);
        }
        lemma_plain_escape(s.drop_last());
        assert(s[s.len() - 1] != '"');
        assert(s.drop_last() + seq![s.last()] =~= s);
    }
}

} // verus!
