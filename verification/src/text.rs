//! Character and string primitives shared by the dictionary and the
//! settings logic.

use vstd::prelude::*;

verus! {

/// The Unicode `White_Space` property, the set that `char::is_whitespace`
/// and `str::split_whitespace` use.
pub open spec fn is_white_space(c: char) -> bool {
    let u = c as u32;
    ||| 0x09 <= u <= 0x0d
    ||| u == 0x20
    ||| u == 0x85
    ||| u == 0xa0
    ||| u == 0x1680
    ||| 0x2000 <= u <= 0x200a
    ||| u == 0x2028
    ||| u == 0x2029
    ||| u == 0x202f
    ||| u == 0x205f
    ||| u == 0x3000
}

/// Executable membership test for `White_Space`.
pub fn white_space(c: char) -> (r: bool)
    ensures
        r == is_white_space(c),
{
    let u = c as u32;
    (0x09 <= u && u <= 0x0d) || u == 0x20 || u == 0x85 || u == 0xa0 || u == 0x1680 || (0x2000
        <= u && u <= 0x200a) || u == 0x2028 || u == 0x2029 || u == 0x202f || u == 0x205f || u
        == 0x3000
}

/// The characters of `s`, in order.
pub fn chars_of(s: &str) -> (r: Vec<char>)
    ensures
        r@ == s@,
{
    let mut out: Vec<char> = Vec::new();
    for c in it: s.chars()
        invariant
            it.seq() == s@,
            out@ == s@.take(it.index() as int),
    {
        out.push(c);
    }
    assert(s@.take(s@.len() as int) == s@);
    out
}

} // verus!

verus! {

/// Appends `c` to `s`; `String::push`.
#[verifier::external_body]
pub(crate) fn push_char(s: &mut String, c: char)
    ensures
        final(s)@ == old(s)@.push(c),
{
    s.push(c);
}

/// The string holding the characters of `cs`.
pub fn string_of(cs: &Vec<char>) -> (r: String)
    ensures
        r@ == cs@,
{
    let mut out = String::new();
    for i in 0..cs.len()
        invariant
            out@ == cs@.take(i as int),
    {
        push_char(&mut out, cs[i]);
        assert(cs@.take(i + 1) == cs@.take(i as int).push(cs@[i as int]));
    }
    assert(cs@.take(cs@.len() as int) == cs@);
    out
}

/// State after scanning `s` while collapsing whitespace: the output so far,
/// and whether a separator is owed before the next non-whitespace character.
pub open spec fn collapse_state(s: Seq<char>) -> (Seq<char>, bool)
    decreases s.len(),
{
    if s.len() == 0 {
        (Seq::empty(), false)
    } else {
        let (out, pending) = collapse_state(s.drop_last());
        let c = s.last();
        if is_white_space(c) {
            (out, out.len() > 0)
        } else if pending {
            (out.push(' ').push(c), false)
        } else {
            (out.push(c), false)
        }
    }
}

/// `s` with leading and trailing whitespace removed and each inner run of
/// whitespace replaced by one space: the words of `s` joined by `' '`.
pub open spec fn normalize_ws(s: Seq<char>) -> Seq<char> {
    collapse_state(s).0
}

/// Text in canonical whitespace form: the only whitespace is single spaces
/// between non-space characters.
pub open spec fn is_normalized_text(t: Seq<char>) -> bool {
    forall|i: int|
        0 <= i < t.len() && is_white_space(#[trigger] t[i]) ==> t[i] == ' ' && 0 < i < t.len() - 1
            && !is_white_space(t[i - 1]) && !is_white_space(t[i + 1])
}

/// Collapses whitespace in a character sequence.
pub fn normalize_chars(cs: &Vec<char>) -> (r: Vec<char>)
    ensures
        r@ == normalize_ws(cs@),
{
    let mut out: Vec<char> = Vec::new();
    let mut pending = false;
    for i in 0..cs.len()
        invariant
            (out@, pending) == collapse_state(cs@.take(i as int)),
    {
        let c = cs[i];
        assert(cs@.take(i + 1).drop_last() == cs@.take(i as int));
        if white_space(c) {
            pending = out.len() > 0;
        } else {
            if pending {
                out.push(' ');
            }
            out.push(c);
            pending = false;
        }
    }
    assert(cs@.take(cs@.len() as int) == cs@);
    out
}

/// `value.split_whitespace().collect::<Vec<_>>().join(" ")`.
pub fn normalize_whitespace(value: &str) -> (r: String)
    ensures
        r@ == normalize_ws(value@),
{
    string_of(&normalize_chars(&chars_of(value)))
}

proof fn lemma_collapse_state_shape(s: Seq<char>)
    ensures
        is_normalized_text(collapse_state(s).0),
        collapse_state(s).1 ==> collapse_state(s).0.len() > 0,
        collapse_state(s).0.len() > 0 ==> !is_white_space(collapse_state(s).0.last()),
    decreases s.len(),
{
    if s.len() > 0 {
        lemma_collapse_state_shape(s.drop_last());
        let (out, pending) = collapse_state(s.drop_last());
        let c = s.last();
        let r = collapse_state(s).0;
        if !is_white_space(c) {
            assert forall|i: int| 0 <= i < r.len() && is_white_space(#[trigger] r[i]) implies r[i]
                == ' ' && 0 < i < r.len() - 1 && !is_white_space(r[i - 1]) && !is_white_space(
                r[i + 1],
            ) by {
                if i < out.len() {
                    assert(r[i] == out[i]);
                    if i + 1 < out.len() {
                        assert(r[i + 1] == out[i + 1]);
                    }
                    assert(r[i - 1] == out[i - 1]);
                }
            }
        }
    }
}

/// Collapsing whitespace yields text in canonical form.
pub proof fn lemma_normalize_ws_is_normalized(s: Seq<char>)
    ensures
        is_normalized_text(normalize_ws(s)),
{
    lemma_collapse_state_shape(s);
}

proof fn lemma_collapse_normalized_prefix(t: Seq<char>, n: int)
    requires
        is_normalized_text(t),
        0 <= n <= t.len(),
    ensures
        collapse_state(t.take(n)).0 == t.take(n).take(if n > 0 && t[n - 1] == ' ' { n - 1 } else { n }),
        collapse_state(t.take(n)).1 == (n > 0 && t[n - 1] == ' '),
    decreases n,
{
    if n > 0 {
        lemma_collapse_normalized_prefix(t, n - 1);
        assert(t.take(n).drop_last() == t.take(n - 1));
        let c = t[n - 1];
        assert(t.take(n).last() == c);
        if is_white_space(c) {
            assert(c == ' ' && n - 1 > 0);
            assert(!is_white_space(t[n - 2]));
        } else {
            if n > 1 && t[n - 2] == ' ' {
                assert(t.take(n - 1).take(n - 2).push(' ').push(c) == t.take(n).take(n));
            } else {
                assert(t.take(n - 1).take(n - 1).push(c) == t.take(n).take(n));
            }
        }
    }
}

/// Text already in canonical form is left unchanged.
pub proof fn lemma_normalize_ws_fixes_normalized(t: Seq<char>)
    requires
        is_normalized_text(t),
    ensures
        normalize_ws(t) == t,
{
    lemma_collapse_normalized_prefix(t, t.len() as int);
    assert(t.take(t.len() as int) == t);
    if t.len() > 0 && t[t.len() - 1] == ' ' {
        assert(is_white_space(t[t.len() - 1]));
    }
}

/// Collapsing whitespace twice is the same as collapsing it once.
pub proof fn lemma_normalize_ws_idempotent(s: Seq<char>)
    ensures
        normalize_ws(normalize_ws(s)) == normalize_ws(s),
{
    lemma_normalize_ws_is_normalized(s);
    lemma_normalize_ws_fixes_normalized(normalize_ws(s));
}

} // verus!

verus! {

/// The ASCII digit for `d` (`0 <= d < 10`).
pub open spec fn digit_char(d: nat) -> char {
    ((48 + d) as u8) as char
}

/// Decimal representation of `n`, without leading zeros.
pub open spec fn decimal(n: nat) -> Seq<char>
    decreases n,
{
    if n < 10 {
        seq![digit_char(n)]
    } else {
        decimal(n / 10).push(digit_char(n % 10))
    }
}

/// The decimal digits of `n`.
pub fn decimal_chars(n: usize) -> (r: Vec<char>)
    ensures
        r@ == decimal(n as nat),
    decreases n,
{
    let d = (n % 10) as u8;
    let c = (48u8 + d) as char;
    if n < 10 {
        let mut v: Vec<char> = Vec::new();
        v.push(c);
        v
    } else {
        let mut v = decimal_chars(n / 10);
        v.push(c);
        v
    }
}

/// Appends the characters of `s` to `out`.
pub fn append_str(out: &mut Vec<char>, s: &str)
    ensures
        final(out)@ == old(out)@ + s@,
{
    let cs = chars_of(s);
    append_chars(out, &cs);
}

/// Appends `cs` to `out`.
pub fn append_chars(out: &mut Vec<char>, cs: &Vec<char>)
    ensures
        final(out)@ == old(out)@ + cs@,
{
    let ghost start = out@;
    for i in 0..cs.len()
        invariant
            out@ == start + cs@.take(i as int),
    {
        out.push(cs[i]);
        assert(cs@.take(i + 1) == cs@.take(i as int).push(cs@[i as int]));
    }
    assert(cs@.take(cs@.len() as int) == cs@);
}

/// Whether two character sequences are equal.
pub fn chars_equal(a: &Vec<char>, b: &Vec<char>) -> (r: bool)
    ensures
        r == (a@ == b@),
{
    if a.len() != b.len() {
        return false;
    }
    for i in 0..a.len()
        invariant
            a@.len() == b@.len(),
            forall|j: int| 0 <= j < i ==> a@[j] == b@[j],
    {
        if a[i] != b[i] {
            return false;
        }
    }
    assert(a@ =~= b@);
    true
}

/// Whether `c` occurs in `cs`.
pub fn contains_char(cs: &Vec<char>, c: char) -> (r: bool)
    ensures
        r == cs@.contains(c),
{
    for i in 0..cs.len()
        invariant
            forall|j: int| 0 <= j < i ==> cs@[j] != c,
    {
        if cs[i] == c {
            return true;
        }
    }
    false
}

} // verus!

verus! {

/// How Rust's `Debug` formatting writes a string: in double quotes, with
/// quotes, backslashes and non-printable characters escaped.
pub uninterp spec fn debug_str(s: Seq<char>) -> Seq<char>;

/// `format!("{:?}", s)`, std's `Debug` rendering of a string. Its escapes
/// follow std's Unicode printability tables, so the result is named rather
/// than restated.
#[verifier::external_body]
pub(crate) fn debug_quote(s: &str) -> (r: String)
    ensures
        r@ == debug_str(s@),
{
    format!("{:?}", s)
}

/// The decimal digits of `n` as a string.
pub fn decimal_string(n: usize) -> (r: String)
    ensures
        r@ == decimal(n as nat),
{
    string_of(&decimal_chars(n))
}

} // verus!

verus! {

/// `s` without its leading `White_Space` characters.
pub open spec fn trim_start_ws(s: Seq<char>) -> Seq<char>
    decreases s.len(),
{
    if s.len() > 0 && is_white_space(s[0]) {
        trim_start_ws(s.drop_first())
    } else {
        s
    }
}

/// `s` without its trailing `White_Space` characters.
pub open spec fn trim_end_ws(s: Seq<char>) -> Seq<char>
    decreases s.len(),
{
    if s.len() > 0 && is_white_space(s.last()) {
        trim_end_ws(s.drop_last())
    } else {
        s
    }
}

/// `str::trim`: `s` without leading and trailing whitespace.
pub open spec fn trim_ws(s: Seq<char>) -> Seq<char> {
    trim_end_ws(trim_start_ws(s))
}

/// The fields of `s` between occurrences of `sep`, as `str::split(sep)`
/// yields them.
pub open spec fn split_fields(s: Seq<char>, sep: char) -> Seq<Seq<char>>
    decreases s.len(),
{
    if s.len() == 0 {
        seq![Seq::<char>::empty()]
    } else {
        let f = split_fields(s.drop_last(), sep);
        if s.last() == sep {
            f.push(Seq::<char>::empty())
        } else {
            f.update(f.len() - 1, f.last().push(s.last()))
        }
    }
}

/// The fields of `s` between commas.
pub open spec fn comma_fields(s: Seq<char>) -> Seq<Seq<char>> {
    split_fields(s, ',')
}

/// The fields of `s` between occurrences of `sep`.
pub fn split_chars(s: &Vec<char>, sep: char) -> (r: Vec<Vec<char>>)
    ensures
        r@.map_values(|f: Vec<char>| f@) == split_fields(s@, sep),
{
    let mut done: Vec<Vec<char>> = Vec::new();
    let mut cur: Vec<char> = Vec::new();
    assert(s@.take(0) =~= Seq::<char>::empty());
    for i in 0..s.len()
        invariant
            split_fields(s@.take(i as int), sep) == done@.map_values(|f: Vec<char>| f@).push(cur@),
    {
        let ghost before = split_fields(s@.take(i as int), sep);
        assert(s@.take(i + 1).drop_last() =~= s@.take(i as int));
        assert(s@.take(i + 1).last() == s@[i as int]);
        let c = s[i];
        if c == sep {
            let finished = cur;
            done.push(finished);
            cur = Vec::new();
            assert(done@.map_values(|f: Vec<char>| f@).push(cur@) =~= before.push(Seq::<char>::empty()));
        } else {
            cur.push(c);
            assert(done@.map_values(|f: Vec<char>| f@).push(cur@) =~= before.update(
                before.len() - 1,
                before.last().push(c),
            ));
        }
    }
    assert(s@.take(s@.len() as int) =~= s@);
    done.push(cur);
    done
}

/// `cs` with leading and trailing whitespace removed.
pub fn trim_chars(cs: &Vec<char>) -> (r: Vec<char>)
    ensures
        r@ == trim_ws(cs@),
{
    let n = cs.len();
    let mut s: usize = 0;
    assert(cs@.subrange(0, n as int) =~= cs@);
    while s < n && white_space(cs[s])
        invariant
            n == cs@.len(),
            s <= n,
            trim_start_ws(cs@) == trim_start_ws(cs@.subrange(s as int, n as int)),
        decreases n - s,
    {
        assert(cs@.subrange(s as int, n as int).drop_first() =~= cs@.subrange(s + 1, n as int));
        s = s + 1;
    }
    assert(trim_start_ws(cs@.subrange(s as int, n as int)) == cs@.subrange(s as int, n as int));
    let mut e: usize = n;
    while e > s && white_space(cs[e - 1])
        invariant
            n == cs@.len(),
            s <= e <= n,
            trim_ws(cs@) == trim_end_ws(cs@.subrange(s as int, e as int)),
        decreases e - s,
    {
        assert(cs@.subrange(s as int, e as int).drop_last() =~= cs@.subrange(s as int, e - 1));
        e = e - 1;
    }
    assert(trim_end_ws(cs@.subrange(s as int, e as int)) == cs@.subrange(s as int, e as int));
    let mut out: Vec<char> = Vec::new();
    let mut i = s;
    while i < e
        invariant
            n == cs@.len(),
            s <= i <= e <= n,
            out@ == cs@.subrange(s as int, i as int),
        decreases e - i,
    {
        out.push(cs[i]);
        assert(cs@.subrange(s as int, i + 1) =~= cs@.subrange(s as int, i as int).push(cs@[i as int]));
        i = i + 1;
    }
    out
}

/// Whether a comma-separated field of `list`, trimmed, equals `item`.
pub fn comma_list_contains(list: &Vec<char>, item: &Vec<char>) -> (r: bool)
    ensures
        r == exists|j: int|
            0 <= j < comma_fields(list@).len() && #[trigger] trim_ws(comma_fields(list@)[j]) == item@,
{
    let mut cur: Vec<char> = Vec::new();
    let mut found = false;
    let ghost mut wit: int = 0;
    assert(list@.take(0) =~= Seq::<char>::empty());
    let mut i: usize = 0;
    while i < list.len()
        invariant
            i <= list@.len(),
            comma_fields(list@.take(i as int)).len() > 0,
            comma_fields(list@.take(i as int)).last() == cur@,
            found ==> 0 <= wit < comma_fields(list@.take(i as int)).len() - 1 && trim_ws(
                comma_fields(list@.take(i as int))[wit],
            ) == item@,
            !found ==> forall|j: int|
                0 <= j < comma_fields(list@.take(i as int)).len() - 1 ==> #[trigger] trim_ws(
                    comma_fields(list@.take(i as int))[j],
                ) != item@,
        decreases list@.len() - i,
    {
        let ghost before = comma_fields(list@.take(i as int));
        assert(list@.take(i + 1).drop_last() =~= list@.take(i as int));
        assert(list@.take(i + 1).last() == list@[i as int]);
        let c = list[i];
        if c == ',' {
            let t = trim_chars(&cur);
            let same = chars_equal(&t, item);
            let ghost after = comma_fields(list@.take(i + 1));
            assert(after == before.push(Seq::<char>::empty()));
            assert(after[before.len() - 1] == cur@);
            if !found && same {
                found = true;
                proof {
                    wit = before.len() - 1;
                }
            }
            proof {
                if found {
                    assert(after[wit] == before[wit] || wit == before.len() - 1);
                } else {
                    assert forall|j: int| 0 <= j < after.len() - 1 implies #[trigger] trim_ws(after[j]) != item@ by {
                        if j < before.len() - 1 {
                            assert(after[j] == before[j]);
                            assert(trim_ws(before[j]) != item@);
                        }
                    }
                }
            }
            cur = Vec::new();
        } else {
            cur.push(c);
            proof {
                let after = comma_fields(list@.take(i + 1));
                assert(after == before.update(before.len() - 1, before.last().push(c)));
                if found {
                    assert(after[wit] == before[wit]);
                } else {
                    assert forall|j: int| 0 <= j < after.len() - 1 implies #[trigger] trim_ws(after[j]) != item@ by {
                        assert(after[j] == before[j]);
                        assert(trim_ws(before[j]) != item@);
                    }
                }
            }
        }
        i = i + 1;
    }
    assert(list@.take(list@.len() as int) =~= list@);
    let ghost fields = comma_fields(list@);
    if found {
        assert(trim_ws(fields[wit]) == item@);
        return true;
    }
    let t = trim_chars(&cur);
    let last = chars_equal(&t, item);
    proof {
        if !last {
            assert forall|j: int| 0 <= j < fields.len() implies #[trigger] trim_ws(fields[j]) != item@ by {
                if j < fields.len() - 1 {
                } else {
                    assert(fields[j] == cur@);
                }
            }
        } else {
            assert(trim_ws(fields[fields.len() - 1]) == item@);
        }
    }
    last
}

} // verus!

verus! {

proof fn lemma_collapse_state_chars(s: Seq<char>)
    ensures
        forall|i: int|
            0 <= i < collapse_state(s).0.len() ==> #[trigger] collapse_state(s).0[i] == ' ' || s.contains(
                collapse_state(s).0[i],
            ),
    decreases s.len(),
{
    if s.len() > 0 {
        let p = s.drop_last();
        lemma_collapse_state_chars(p);
        let out = collapse_state(p).0;
        let r = collapse_state(s).0;
        assert forall|i: int| 0 <= i < r.len() implies #[trigger] r[i] == ' ' || s.contains(r[i]) by {
            if i < out.len() {
                assert(r[i] == out[i]);
                if out[i] != ' ' {
                    let j = choose|j: int| 0 <= j < p.len() && p[j] == out[i];
                    assert(s[j] == p[j]);
                }
            } else if r[i] != ' ' {
                assert(r[i] == s.last());
                assert(s[s.len() - 1] == s.last());
            }
        }
    }
}

/// Collapsing whitespace adds no character other than the space.
pub proof fn lemma_normalize_ws_no_new_chars(s: Seq<char>, c: char)
    requires
        c != ' ',
        !s.contains(c),
    ensures
        !normalize_ws(s).contains(c),
{
    lemma_collapse_state_chars(s);
    if normalize_ws(s).contains(c) {
        let i = choose|i: int| 0 <= i < normalize_ws(s).len() && normalize_ws(s)[i] == c;
        assert(collapse_state(s).0[i] == c);
    }
}

} // verus!
