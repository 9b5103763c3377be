//! Character classes, trimming, splitting and number formatting, with the
//! specifications that the validation and formatting code is stated over.

use vstd::prelude::*;
use vstd::string::StringExecFns;

verus! {

// ---------------------------------------------------------------------------------------------
// Character classes
// ---------------------------------------------------------------------------------------------

/// The Unicode `White_Space` property: the characters that `char::is_whitespace` accepts.
pub open spec fn is_white_space(c: char) -> bool {
    let u = c as u32;
    ||| 0x09 <= u <= 0x0d
    ||| u == 0x20
    ||| u == 0x85
    ||| u == 0xa0
    ||| u == 0x1680
    ||| 0x2000 <= u <= 0x200a
    ||| u == 0x2028
    ||| u == 0x2029
    ||| u == 0x202f
    ||| u == 0x205f
    ||| u == 0x3000
}

/// The Unicode general category `Cc`: the characters that `char::is_control` accepts.
pub open spec fn is_control_char(c: char) -> bool {
    let u = c as u32;
    u <= 0x1f || (0x7f <= u && u <= 0x9f)
}

pub open spec fn is_digit(c: char) -> bool {
    '0' <= c && c <= '9'
}

pub open spec fn is_alpha(c: char) -> bool {
    ('a' <= c && c <= 'z') || ('A' <= c && c <= 'Z')
}

pub open spec fn is_alnum(c: char) -> bool {
    is_digit(c) || is_alpha(c)
}

pub fn char_is_whitespace(c: char) -> (r: bool)
    ensures
        r == is_white_space(c),
{
    let u = c as u32;
    (0x09 <= u && u <= 0x0d) || u == 0x20 || u == 0x85 || u == 0xa0 || u == 0x1680 || (0x2000 <= u
        && u <= 0x200a) || u == 0x2028 || u == 0x2029 || u == 0x202f || u == 0x205f || u == 0x3000
}

pub fn char_is_control(c: char) -> (r: bool)
    ensures
        r == is_control_char(c),
{
    let u = c as u32;
    u <= 0x1f || (0x7f <= u && u <= 0x9f)
}

pub fn char_is_digit(c: char) -> (r: bool)
    ensures
        r == is_digit(c),
{
    '0' <= c && c <= '9'
}

pub fn char_is_alpha(c: char) -> (r: bool)
    ensures
        r == is_alpha(c),
{
    ('a' <= c && c <= 'z') || ('A' <= c && c <= 'Z')
}

pub fn char_is_alnum(c: char) -> (r: bool)
    ensures
        r == is_alnum(c),
{
    char_is_digit(c) || char_is_alpha(c)
}

/// Every character of `s` is an ASCII digit.
pub open spec fn all_digit_chars(s: Seq<char>) -> bool {
    forall|i: int| 0 <= i < s.len() ==> is_digit(#[trigger] s[i])
}

/// Some character of `s` is a control character.
pub open spec fn has_control(s: Seq<char>) -> bool {
    exists|i: int| 0 <= i < s.len() && is_control_char(#[trigger] s[i])
}

pub fn all_digits(s: &Vec<char>) -> (r: bool)
    ensures
        r == all_digit_chars(s@),
{
    let mut i: usize = 0;
    while i < s.len()
        invariant
            i <= s.len(),
            forall|j: int| 0 <= j < i ==> is_digit(#[trigger] s@[j]),
        decreases s.len() - i,
    {
        if !char_is_digit(s[i]) {
            return false;
        }
        i = i + 1;
    }
    true
}

pub fn any_control(s: &Vec<char>) -> (r: bool)
    ensures
        r == has_control(s@),
{
    let mut i: usize = 0;
    while i < s.len()
        invariant
            i <= s.len(),
            forall|j: int| 0 <= j < i ==> !is_control_char(#[trigger] s@[j]),
        decreases s.len() - i,
    {
        if char_is_control(s[i]) {
            assert(is_control_char(s@[i as int]));
            return true;
        }
        i = i + 1;
    }
    false
}

// ---------------------------------------------------------------------------------------------
// Strings and character vectors
// ---------------------------------------------------------------------------------------------

/// The characters of a string slice, in order.
pub fn chars_of(s: &str) -> (out: Vec<char>)
    ensures
        out@ == s@,
{
    let mut out: Vec<char> = Vec::new();
    for c in it: s.chars()
        invariant
            it.seq() == s@,
            out@ == s@.take(it.index() as int),
    {
        out.push(c);
    }
    out
}

/// Appends one character to a string (`String::push`).
#[verifier::external_body]
pub(crate) fn push_char(s: &mut String, c: char)
    ensures
        final(s)@ == old(s)@.push(c),
{
    s.push(c);
}

/// A string holding exactly the given characters.
pub fn string_of(cs: &Vec<char>) -> (out: String)
    ensures
        out@ == cs@,
{
    let mut out = String::new();
    let mut i: usize = 0;
    while i < cs.len()
        invariant
            i <= cs.len(),
            out@ == cs@.subrange(0, i as int),
        decreases cs.len() - i,
    {
        push_char(&mut out, cs[i]);
        i = i + 1;
    }
    out
}

/// A string holding the characters of `a` followed by those of `b`.
pub fn concat2(a: &str, b: &str) -> (out: String)
    ensures
        out@ == a@ + b@,
{
    let mut s = String::from_str(a);
    s.append(b);
    s
}

/// A string holding the characters of `a`, `b` and `c`, in that order.
pub fn concat3(a: &str, b: &str, c: &str) -> (out: String)
    ensures
        out@ == a@ + b@ + c@,
{
    let mut s = String::from_str(a);
    s.append(b);
    s.append(c);
    s
}

pub fn chars_eq(a: &Vec<char>, b: &Vec<char>) -> (r: bool)
    ensures
        r == (a@ == b@),
{
    if a.len() != b.len() {
        return false;
    }
    let mut i: usize = 0;
    while i < a.len()
        invariant
            i <= a.len(),
            a.len() == b.len(),
            forall|j: int| 0 <= j < i ==> a@[j] == b@[j],
        decreases a.len() - i,
    {
        if a[i] != b[i] {
            return false;
        }
        i = i + 1;
    }
    assert(a@ =~= b@);
    true
}

/// Whether two strings hold the same characters.
pub fn str_eq(a: &str, b: &str) -> (r: bool)
    ensures
        r == (a@ == b@),
{
    let ca = chars_of(a);
    let cb = chars_of(b);
    chars_eq(&ca, &cb)
}

/// `a.starts_with(b)` on characters.
pub fn chars_start_with(a: &Vec<char>, b: &Vec<char>) -> (r: bool)
    ensures
        r == (b@.len() <= a@.len() && a@.take(b@.len() as int) == b@),
{
    if b.len() > a.len() {
        return false;
    }
    let mut i: usize = 0;
    while i < b.len()
        invariant
            i <= b.len(),
            b.len() <= a.len(),
            forall|j: int| 0 <= j < i ==> a@[j] == b@[j],
        decreases b.len() - i,
    {
        if a[i] != b[i] {
            assert(a@.take(b@.len() as int)[i as int] != b@[i as int]);
            return false;
        }
        i = i + 1;
    }
    assert(a@.take(b@.len() as int) =~= b@);
    true
}

/// The characters of `s` from index `lo` up to (not including) `hi`.
pub fn slice_chars(s: &Vec<char>, lo: usize, hi: usize) -> (out: Vec<char>)
    requires
        lo <= hi <= s.len(),
    ensures
        out@ == s@.subrange(lo as int, hi as int),
{
    let mut out: Vec<char> = Vec::new();
    let mut i = lo;
    while i < hi
        invariant
            lo <= i <= hi <= s.len(),
            out@ == s@.subrange(lo as int, i as int),
        decreases hi - i,
    {
        out.push(s[i]);
        i = i + 1;
    }
    out
}

// ---------------------------------------------------------------------------------------------
// Trimming
// ---------------------------------------------------------------------------------------------

pub open spec fn trim_start_spec(s: Seq<char>) -> Seq<char>
    decreases s.len(),
{
    if s.len() > 0 && is_white_space(s[0]) {
        trim_start_spec(s.drop_first())
    } else {
        s
    }
}

pub open spec fn trim_end_spec(s: Seq<char>) -> Seq<char>
    decreases s.len(),
{
    if s.len() > 0 && is_white_space(s.last()) {
        trim_end_spec(s.drop_last())
    } else {
        s
    }
}

/// `str::trim`: leading and trailing `White_Space` characters removed.
pub open spec fn trim_spec(s: Seq<char>) -> Seq<char> {
    trim_end_spec(trim_start_spec(s))
}

proof fn lemma_trim_start_skip(s: Seq<char>, i: int)
    requires
        0 <= i <= s.len(),
        forall|j: int| 0 <= j < i ==> is_white_space(#[trigger] s[j]),
    ensures
        trim_start_spec(s) == trim_start_spec(s.skip(i)),
    decreases i,
{
    if i > 0 {
        assert(s.skip(1) =~= s.drop_first());
        lemma_trim_start_skip(s.drop_first(), i - 1);
        assert(s.drop_first().skip(i - 1) =~= s.skip(i));
    } else {
        assert(s.skip(0) =~= s);
    }
}

proof fn lemma_trim_end_take(s: Seq<char>, k: int)
    requires
        0 <= k <= s.len(),
        forall|j: int| k <= j < s.len() ==> is_white_space(#[trigger] s[j]),
    ensures
        trim_end_spec(s) == trim_end_spec(s.take(k)),
    decreases s.len() - k,
{
    if k < s.len() {
        assert(s.drop_last().take(k) =~= s.take(k));
        lemma_trim_end_take(s.drop_last(), k);
    } else {
        assert(s.take(k) =~= s);
    }
}

/// Leading and trailing whitespace removed, as characters.
pub fn trim_chars(s: &Vec<char>) -> (out: Vec<char>)
    ensures
        out@ == trim_spec(s@),
{
    let mut lo: usize = 0;
    while lo < s.len() && char_is_whitespace(s[lo])
        invariant
            lo <= s.len(),
            forall|j: int| 0 <= j < lo ==> is_white_space(#[trigger] s@[j]),
        decreases s.len() - lo,
    {
        lo = lo + 1;
    }
    proof {
        lemma_trim_start_skip(s@, lo as int);
    }
    let mut hi: usize = s.len();
    while hi > lo && char_is_whitespace(s[hi - 1])
        invariant
            lo <= hi <= s.len(),
            forall|j: int| hi <= j < s.len() ==> is_white_space(#[trigger] s@[j]),
        decreases hi,
    {
        hi = hi - 1;
    }
    let ghost t = s@.skip(lo as int);
    proof {
        lemma_trim_end_take(t, hi - lo);
        if hi > lo {
            assert(!is_white_space(t[0]));
        } else {
            assert(t.take(0) =~= Seq::<char>::empty());
        }
        assert(t.take(hi - lo) =~= s@.subrange(lo as int, hi as int));
        assert(trim_start_spec(t) == t);
        let u = t.take(hi - lo);
        if u.len() > 0 {
            assert(u.last() == s@[hi - 1]);
        }
        assert(trim_end_spec(u) == u);
    }
    slice_chars(s, lo, hi)
}

/// `str::trim`, as an owned string.
pub fn trim(s: &str) -> (out: String)
    ensures
        out@ == trim_spec(s@),
{
    let cs = chars_of(s);
    let t = trim_chars(&cs);
    string_of(&t)
}

// ---------------------------------------------------------------------------------------------
// Splitting and joining
// ---------------------------------------------------------------------------------------------

/// `str::split` on one separator character: n separators give n + 1 pieces.
pub open spec fn split_spec(s: Seq<char>, sep: char) -> Seq<Seq<char>>
    decreases s.len(),
{
    if s.len() == 0 {
        seq![Seq::<char>::empty()]
    } else {
        let prev = split_spec(s.drop_last(), sep);
        if s.last() == sep {
            prev.push(Seq::<char>::empty())
        } else {
            prev.update(prev.len() - 1, prev.last().push(s.last()))
        }
    }
}

pub proof fn lemma_split_nonempty(s: Seq<char>, sep: char)
    ensures
        split_spec(s, sep).len() >= 1,
    decreases s.len(),
{
    if s.len() > 0 {
        lemma_split_nonempty(s.drop_last(), sep);
    }
}

pub open spec fn views_of(v: Seq<Vec<char>>) -> Seq<Seq<char>> {
    v.map_values(|x: Vec<char>| x@)
}

/// Splits `s` at every occurrence of `sep`.
pub fn split_chars(s: &Vec<char>, sep: char) -> (parts: Vec<Vec<char>>)
    ensures
        views_of(parts@) == split_spec(s@, sep),
{
    let mut parts: Vec<Vec<char>> = Vec::new();
    parts.push(Vec::new());
    assert(views_of(parts@) =~= split_spec(s@.take(0), sep));
    let mut i: usize = 0;
    while i < s.len()
        invariant
            i <= s.len(),
            parts.len() >= 1,
            views_of(parts@) == split_spec(s@.take(i as int), sep),
        decreases s.len() - i,
    {
        let c = s[i];
        proof {
            lemma_split_nonempty(s@.take(i as int), sep);
            assert(s@.take(i + 1).drop_last() =~= s@.take(i as int));
        }
        let ghost before = parts@;
        if c == sep {
            parts.push(Vec::new());
            assert(views_of(parts@) =~= views_of(before).push(Seq::<char>::empty()));
        } else {
            let mut last = parts.pop().unwrap();
            last.push(c);
            parts.push(last);
            assert(views_of(parts@) =~= views_of(before).update(
                views_of(before).len() - 1,
                views_of(before).last().push(c),
            ));
        }
        i = i + 1;
    }
    assert(s@.take(s.len() as int) =~= s@);
    parts
}

/// `parts` joined with `sep` between neighbours (`[&str]::join`).
pub open spec fn join_spec(parts: Seq<Seq<char>>, sep: Seq<char>) -> Seq<char>
    decreases parts.len(),
{
    if parts.len() == 0 {
        Seq::<char>::empty()
    } else if parts.len() == 1 {
        parts[0]
    } else {
        join_spec(parts.drop_last(), sep) + sep + parts.last()
    }
}

/// Text without the separator is one piece.
pub proof fn lemma_split_no_sep(x: Seq<char>, sep: char)
    requires
        forall|i: int| 0 <= i < x.len() ==> #[trigger] x[i] != sep,
    ensures
        split_spec(x, sep) == seq![x],
    decreases x.len(),
{
    if x.len() == 0 {
        assert(x =~= Seq::<char>::empty());
    } else {
        let d = x.drop_last();
        assert forall|i: int| 0 <= i < d.len() implies #[trigger] d[i] != sep by {
            assert(d[i] == x[i]);
        }
        lemma_split_no_sep(d, sep);
        assert(x.last() == x[x.len() - 1]);
        assert(d.push(x.last()) =~= x);
        assert(split_spec(x, sep) =~= seq![x]);
    }
}

/// Cutting `a`, a separator and `b` gives the pieces of `a` followed by those of `b`.
pub proof fn lemma_split_concat(a: Seq<char>, b: Seq<char>, sep: char)
    ensures
        split_spec(a + seq![sep] + b, sep) == split_spec(a, sep) + split_spec(b, sep),
    decreases b.len(),
{
    let s = a + seq![sep] + b;
    let q = split_spec(a, sep);
    if b.len() == 0 {
        assert(s.drop_last() =~= a);
        assert(s.last() == sep);
        assert(split_spec(b, sep) == seq![Seq::<char>::empty()]);
        assert(split_spec(s, sep) =~= q + split_spec(b, sep));
    } else {
        let bd = b.drop_last();
        assert(s.drop_last() =~= a + seq![sep] + bd);
        assert(s.last() == b.last());
        lemma_split_concat(a, bd, sep);
        lemma_split_nonempty(bd, sep);
        let pp = split_spec(bd, sep);
        let prev = q + pp;
        if b.last() == sep {
            assert(split_spec(s, sep) =~= q + split_spec(b, sep));
        } else {
            assert(prev.last() == pp.last());
            assert(split_spec(s, sep) == prev.update(prev.len() - 1, prev.last().push(b.last())));
            assert(split_spec(b, sep) == pp.update(pp.len() - 1, pp.last().push(b.last())));
            assert(split_spec(s, sep) =~= q + split_spec(b, sep));
        }
    }
}

/// Pieces without the separator, joined by it, cut back into the same pieces.
pub proof fn lemma_split_join(parts: Seq<Seq<char>>, sep: char)
    requires
        parts.len() >= 1,
        forall|k: int, j: int|
            0 <= k < parts.len() && 0 <= j < parts[k].len() ==> #[trigger] parts[k][j] != sep,
    ensures
        split_spec(join_spec(parts, seq![sep]), sep) == parts,
    decreases parts.len(),
{
    let last = parts[parts.len() - 1];
    assert forall|i: int| 0 <= i < last.len() implies #[trigger] last[i] != sep by {
        assert(parts[parts.len() - 1][i] != sep);
    }
    lemma_split_no_sep(last, sep);
    if parts.len() == 1 {
        assert(seq![parts[0]] =~= parts);
    } else {
        let d = parts.drop_last();
        assert forall|k: int, j: int| 0 <= k < d.len() && 0 <= j < d[k].len() implies #[trigger] d[k][j]
            != sep by {
            assert(d[k] == parts[k]);
        }
        lemma_split_join(d, sep);
        lemma_split_concat(join_spec(d, seq![sep]), parts.last(), sep);
        assert(d + seq![parts.last()] =~= parts);
    }
}

/// Joining the pieces of `s` by the separator gives `s` back.
pub proof fn lemma_join_split(s: Seq<char>, sep: char)
    ensures
        join_spec(split_spec(s, sep), seq![sep]) == s,
    decreases s.len(),
{
    if s.len() == 0 {
        assert(s =~= Seq::<char>::empty());
    } else {
        let d = s.drop_last();
        let c = s.last();
        lemma_join_split(d, sep);
        lemma_split_nonempty(d, sep);
        let p = split_spec(d, sep);
        if c == sep {
            let q = p.push(Seq::<char>::empty());
            assert(q.drop_last() =~= p);
            assert(join_spec(q, seq![sep]) == join_spec(p, seq![sep]) + seq![sep] + q.last());
            assert(join_spec(q, seq![sep]) =~= s);
        } else {
            let q = p.update(p.len() - 1, p.last().push(c));
            if p.len() == 1 {
                assert(join_spec(p, seq![sep]) == p[0]);
                assert(join_spec(q, seq![sep]) =~= s);
            } else {
                assert(q.drop_last() =~= p.drop_last());
                assert(join_spec(p, seq![sep]) == join_spec(p.drop_last(), seq![sep]) + seq![sep]
                    + p.last());
                assert(join_spec(q, seq![sep]) == join_spec(p.drop_last(), seq![sep]) + seq![sep]
                    + q.last());
                assert(q.last() == p.last().push(c));
                assert(d.push(c) =~= s);
                assert(join_spec(q, seq![sep]) =~= d.push(c));
            }
        }
    }
}

/// A property that the separator and every character of every piece have holds of every
/// character of the joined text.
pub proof fn lemma_join_chars(parts: Seq<Seq<char>>, sep: char, p: spec_fn(char) -> bool)
    requires
        p(sep),
        forall|k: int, j: int| 0 <= k < parts.len() && 0 <= j < parts[k].len() ==> p(#[trigger] parts[k][j]),
    ensures
        forall|i: int|
            0 <= i < join_spec(parts, seq![sep]).len() ==> p(#[trigger] join_spec(parts, seq![sep])[i]),
    decreases parts.len(),
{
    if parts.len() == 1 {
        assert forall|i: int| 0 <= i < join_spec(parts, seq![sep]).len() implies p(
            #[trigger] join_spec(parts, seq![sep])[i],
        ) by {
            assert(parts[0][i] == join_spec(parts, seq![sep])[i]);
        }
    } else if parts.len() > 1 {
        let d = parts.drop_last();
        assert forall|k: int, j: int| 0 <= k < d.len() && 0 <= j < d[k].len() implies p(
            #[trigger] d[k][j],
        ) by {
            assert(d[k] == parts[k]);
        }
        lemma_join_chars(d, sep, p);
        let a = join_spec(d, seq![sep]);
        let b = parts.last();
        let t = join_spec(parts, seq![sep]);
        assert(t == a + seq![sep] + b);
        assert forall|i: int| 0 <= i < t.len() implies p(#[trigger] t[i]) by {
            if i < a.len() {
                assert(t[i] == a[i]);
            } else if i == a.len() {
                assert(t[i] == sep);
            } else {
                assert(t[i] == b[i - a.len() - 1]);
                assert(parts[parts.len() - 1][i - a.len() - 1] == b[i - a.len() - 1]);
            }
        }
    }
}

pub fn join_chars(parts: &Vec<Vec<char>>, sep: &Vec<char>) -> (out: Vec<char>)
    ensures
        out@ == join_spec(views_of(parts@), sep@),
{
    let mut out: Vec<char> = Vec::new();
    let mut i: usize = 0;
    while i < parts.len()
        invariant
            i <= parts.len(),
            out@ == join_spec(views_of(parts@).take(i as int), sep@),
        decreases parts.len() - i,
    {
        let ghost prev = out@;
        if i > 0 {
            let mut k: usize = 0;
            while k < sep.len()
                invariant
                    k <= sep.len(),
                    out@ == prev + sep@.take(k as int),
                decreases sep.len() - k,
            {
                out.push(sep[k]);
                k = k + 1;
                assert(out@ =~= prev + sep@.take(k as int));
            }
        }
        let ghost mid = out@;
        let mut k: usize = 0;
        while k < parts[i].len()
            invariant
                i < parts.len(),
                k <= parts[i as int].len(),
                out@ == mid + parts[i as int]@.take(k as int),
            decreases parts[i as int].len() - k,
        {
            out.push(parts[i][k]);
            k = k + 1;
            assert(out@ =~= mid + parts[i as int]@.take(k as int));
        }
        proof {
            let vs = views_of(parts@);
            assert(vs.take(i + 1).drop_last() =~= vs.take(i as int));
            assert(parts[i as int]@.take(parts[i as int]@.len() as int) =~= parts[i as int]@);
            if i == 0 {
                assert(out@ =~= vs.take(1)[0]);
            } else {
                assert(sep@.take(sep@.len() as int) =~= sep@);
            }
        }
        i = i + 1;
    }
    assert(views_of(parts@).take(parts.len() as int) =~= views_of(parts@));
    out
}

/// `str::split_whitespace` joined by single spaces: runs of whitespace collapse to one
/// space, and leading and trailing whitespace disappears.
pub open spec fn collapse_whitespace_spec(s: Seq<char>) -> Seq<char> {
    join_spec(words_spec(s), seq![' '])
}

/// The whitespace-separated words of `s` (`str::split_whitespace`).
pub open spec fn words_spec(s: Seq<char>) -> Seq<Seq<char>> {
    split_ws_spec(s).filter(|w: Seq<char>| w.len() > 0)
}

/// `s` cut at every whitespace character (the pieces may be empty).
pub open spec fn split_ws_spec(s: Seq<char>) -> Seq<Seq<char>>
    decreases s.len(),
{
    if s.len() == 0 {
        seq![Seq::<char>::empty()]
    } else {
        let prev = split_ws_spec(s.drop_last());
        if is_white_space(s.last()) {
            prev.push(Seq::<char>::empty())
        } else {
            prev.update(prev.len() - 1, prev.last().push(s.last()))
        }
    }
}

proof fn lemma_split_ws_nonempty(s: Seq<char>)
    ensures
        split_ws_spec(s).len() >= 1,
    decreases s.len(),
{
    if s.len() > 0 {
        lemma_split_ws_nonempty(s.drop_last());
    }
}

fn split_whitespace_pieces(s: &Vec<char>) -> (parts: Vec<Vec<char>>)
    ensures
        views_of(parts@) == split_ws_spec(s@),
{
    let mut parts: Vec<Vec<char>> = Vec::new();
    parts.push(Vec::new());
    assert(views_of(parts@) =~= split_ws_spec(s@.take(0)));
    let mut i: usize = 0;
    while i < s.len()
        invariant
            i <= s.len(),
            parts.len() >= 1,
            views_of(parts@) == split_ws_spec(s@.take(i as int)),
        decreases s.len() - i,
    {
        let c = s[i];
        proof {
            lemma_split_ws_nonempty(s@.take(i as int));
            assert(s@.take(i + 1).drop_last() =~= s@.take(i as int));
        }
        let ghost before = parts@;
        if char_is_whitespace(c) {
            parts.push(Vec::new());
            assert(views_of(parts@) =~= views_of(before).push(Seq::<char>::empty()));
        } else {
            let mut last = parts.pop().unwrap();
            last.push(c);
            parts.push(last);
            assert(views_of(parts@) =~= views_of(before).update(
                views_of(before).len() - 1,
                views_of(before).last().push(c),
            ));
        }
        i = i + 1;
    }
    assert(s@.take(s.len() as int) =~= s@);
    parts
}

fn nonempty_pieces(parts: &Vec<Vec<char>>) -> (out: Vec<Vec<char>>)
    ensures
        views_of(out@) == views_of(parts@).filter(|w: Seq<char>| w.len() > 0),
{
    let ghost pred = |w: Seq<char>| w.len() > 0;
    let mut out: Vec<Vec<char>> = Vec::new();
    let mut i: usize = 0;
    while i < parts.len()
        invariant
            i <= parts.len(),
            pred == (|w: Seq<char>| w.len() > 0),
            views_of(out@) == views_of(parts@).take(i as int).filter(pred),
        decreases parts.len() - i,
    {
        proof {
            reveal_with_fuel(Seq::<_>::filter, 1);
            assert(views_of(parts@).take(i + 1).drop_last() =~= views_of(parts@).take(i as int));
        }
        let ghost before = out@;
        if parts[i].len() > 0 {
            let p = copy_chars(&parts[i]);
            out.push(p);
            assert(views_of(out@) =~= views_of(before).push(parts[i as int]@));
        }
        i = i + 1;
    }
    assert(views_of(parts@).take(parts.len() as int) =~= views_of(parts@));
    out
}

pub fn copy_chars(s: &Vec<char>) -> (out: Vec<char>)
    ensures
        out@ == s@,
{
    slice_chars(s, 0, s.len())
}

/// Whitespace runs collapsed to single spaces and the ends trimmed.
pub fn collapse_whitespace(s: &str) -> (out: Vec<char>)
    ensures
        out@ == collapse_whitespace_spec(s@),
{
    let cs = chars_of(s);
    let pieces = split_whitespace_pieces(&cs);
    let words = nonempty_pieces(&pieces);
    let mut space: Vec<char> = Vec::new();
    space.push(' ');
    assert(space@ =~= seq![' ']);
    join_chars(&words, &space)
}

// ---------------------------------------------------------------------------------------------
// Decimal numbers
// ---------------------------------------------------------------------------------------------

pub open spec fn digit_char(d: nat) -> char
    recommends
        d < 10,
{
    (('0' as u32) + d) as char
}

pub open spec fn digit_value(c: char) -> nat {
    ((c as u32) - ('0' as u32)) as nat
}

/// The decimal digits of `n`, most significant first, without leading zeros.
pub open spec fn decimal(n: nat) -> Seq<char>
    decreases n,
{
    if n < 10 {
        seq![digit_char(n)]
    } else {
        decimal(n / 10).push(digit_char(n % 10))
    }
}

/// The value of a string of decimal digits.
pub open spec fn digits_value(s: Seq<char>) -> nat
    decreases s.len(),
{
    if s.len() == 0 {
        0
    } else {
        digits_value(s.drop_last()) * 10 + digit_value(s.last())
    }
}

/// `i64::to_string`.
pub open spec fn signed_decimal(x: int) -> Seq<char> {
    if x < 0 {
        seq!['-'] + decimal((-x) as nat)
    } else {
        decimal(x as nat)
    }
}

pub proof fn lemma_digit_char(d: nat)
    requires
        d < 10,
    ensures
        digit_value(digit_char(d)) == d,
        is_digit(digit_char(d)),
{
    assert((('0' as u32) + d) as char as u32 == ('0' as u32) + d);
}

pub proof fn lemma_decimal_digits(n: nat)
    ensures
        decimal(n).len() >= 1,
        all_digit_chars(decimal(n)),
        digits_value(decimal(n)) == n,
    decreases n,
{
    lemma_digit_char(n % 10);
    if n < 10 {
        assert(decimal(n).drop_last() =~= Seq::<char>::empty());
        assert(digits_value(decimal(n)) == digits_value(Seq::<char>::empty()) * 10 + digit_value(digit_char(n)));
    }
    if n >= 10 {
        lemma_decimal_digits(n / 10);
        let d = decimal(n / 10);
        assert(decimal(n).drop_last() =~= d);
        assert(digits_value(decimal(n)) == digits_value(d) * 10 + digit_value(digit_char(n % 10)));
        assert((n / 10) * 10 + n % 10 == n);
    }
    assert forall|i: int| 0 <= i < decimal(n).len() implies is_digit(#[trigger] decimal(n)[i]) by {
        if n >= 10 {
            if i < decimal(n).len() - 1 {
                assert(decimal(n)[i] == decimal(n / 10)[i]);
            }
        }
    }
}

fn push_decimal(out: &mut Vec<char>, n: u64)
    ensures
        final(out)@ == old(out)@ + decimal(n as nat),
    decreases n,
{
    if n >= 10 {
        push_decimal(out, n / 10);
    }
    let d = (n % 10) as u8;
    let c = (48u8 + d) as char;
    out.push(c);
    assert(decimal(n as nat) == if n < 10 {
        seq![digit_char(n as nat)]
    } else {
        decimal((n / 10) as nat).push(digit_char((n % 10) as nat))
    });
    assert(final(out)@ =~= old(out)@ + decimal(n as nat));
}

/// The decimal digits of `n` (`u64::to_string`).
pub fn u64_decimal(n: u64) -> (out: Vec<char>)
    ensures
        out@ == decimal(n as nat),
{
    let mut out: Vec<char> = Vec::new();
    push_decimal(&mut out, n);
    assert(out@ =~= decimal(n as nat));
    out
}

/// `i64::to_string`.
pub fn i64_decimal(x: i64) -> (out: Vec<char>)
    ensures
        out@ == signed_decimal(x as int),
{
    if x < 0 {
        let m: u64 = if x == i64::MIN {
            9223372036854775808u64
        } else {
            (-x) as u64
        };
        let mut out: Vec<char> = Vec::new();
        out.push('-');
        push_decimal(&mut out, m);
        out
    } else {
        u64_decimal(x as u64)
    }
}

/// `i64::from_str`: an optional `+` or `-`, then one or more ASCII digits, and the value
/// in range; anything else is an error.
pub open spec fn parse_i64_spec(s: Seq<char>) -> Option<i64> {
    let neg = s.len() > 0 && s[0] == '-';
    let digits = if s.len() > 0 && (s[0] == '-' || s[0] == '+') {
        s.drop_first()
    } else {
        s
    };
    let v: int = if neg {
        -digits_value(digits)
    } else {
        digits_value(digits) as int
    };
    if digits.len() > 0 && all_digit_chars(digits) && i64::MIN <= v <= i64::MAX {
        Some(v as i64)
    } else {
        None
    }
}

proof fn lemma_digits_value_prefix_bound(s: Seq<char>, k: int)
    requires
        0 <= k <= s.len(),
        all_digit_chars(s),
    ensures
        digits_value(s.take(k)) <= digits_value(s),
    decreases s.len() - k,
{
    if k < s.len() {
        assert(s.drop_last().take(k) =~= s.take(k));
        assert(all_digit_chars(s.drop_last())) by {
            assert forall|i: int| 0 <= i < s.drop_last().len() implies is_digit(
                #[trigger] s.drop_last()[i],
            ) by {
                assert(s.drop_last()[i] == s[i]);
            }
        }
        lemma_digits_value_prefix_bound(s.drop_last(), k);
    } else {
        assert(s.take(k) =~= s);
    }
}

/// Parses a signed decimal integer the way `str::parse::<i64>` does.
pub fn parse_i64(s: &Vec<char>) -> (r: Option<i64>)
    ensures
        r == parse_i64_spec(s@),
{
    let neg = s.len() > 0 && s[0] == '-';
    let start: usize = if s.len() > 0 && (s[0] == '-' || s[0] == '+') {
        1
    } else {
        0
    };
    let ghost digits = if s@.len() > 0 && (s@[0] == '-' || s@[0] == '+') {
        s@.drop_first()
    } else {
        s@
    };
    assert(digits =~= s@.skip(start as int));
    if start >= s.len() {
        return None;
    }
    if !all_digits_from(s, start) {
        return None;
    }
    // Accumulate towards the sign so that i64::MIN parses.
    let mut acc: i128 = 0;
    let mut i = start;
    while i < s.len()
        invariant
            start <= i <= s.len(),
            digits =~= s@.skip(start as int),
            digits == (if s@.len() > 0 && (s@[0] == '-' || s@[0] == '+') {
                s@.drop_first()
            } else {
                s@
            }),
            neg == (s@.len() > 0 && s@[0] == '-'),
            all_digit_chars(digits),
            acc == digits_value(s@.subrange(start as int, i as int)),
            acc <= i64::MAX as int + 1,
        decreases s.len() - i,
    {
        proof {
            assert(s@.subrange(start as int, i + 1).drop_last() =~= s@.subrange(start as int, i as int));
            assert(digits[i - start] == s@[i as int]);
            assert(is_digit(digits[i - start]));
        }
        let d = (s[i] as u32 - '0' as u32) as i128;
        let next = acc * 10 + d;
        assert(next == digits_value(s@.subrange(start as int, i + 1)));
        if next > i64::MAX as i128 + 1 {
            proof {
                assert(s@.subrange(start as int, i + 1) =~= digits.take(i + 1 - start));
                lemma_digits_value_prefix_bound(digits, i + 1 - start);
                assert(digits_value(digits) > i64::MAX as int + 1);
            }
            return None;
        }
        acc = next;
        i = i + 1;
    }
    assert(s@.subrange(start as int, s.len() as int) =~= digits);
    if neg {
        if acc == i64::MAX as i128 + 1 {
            Some(i64::MIN)
        } else {
            Some((-acc) as i64)
        }
    } else {
        if acc > i64::MAX as i128 {
            None
        } else {
            Some(acc as i64)
        }
    }
}

fn all_digits_from(s: &Vec<char>, start: usize) -> (r: bool)
    requires
        start <= s.len(),
    ensures
        r == all_digit_chars(s@.skip(start as int)),
{
    let mut i = start;
    while i < s.len()
        invariant
            start <= i <= s.len(),
            forall|j: int| start <= j < i ==> is_digit(#[trigger] s@[j]),
        decreases s.len() - i,
    {
        if !char_is_digit(s[i]) {
            assert(!is_digit(s@.skip(start as int)[i - start]));
            return false;
        }
        i = i + 1;
    }
    assert forall|j: int| 0 <= j < s@.skip(start as int).len() implies is_digit(
        #[trigger] s@.skip(start as int)[j],
    ) by {
        assert(s@.skip(start as int)[j] == s@[start + j]);
    }
    true
}

/// Parsing what `i64::to_string` printed gives the number back.
pub proof fn lemma_parse_signed_decimal(x: i64)
    ensures
        parse_i64_spec(signed_decimal(x as int)) == Some(x),
{
    let s = signed_decimal(x as int);
    if x < 0 {
        let n = (-x) as nat;
        lemma_decimal_digits(n);
        assert(s.drop_first() =~= decimal(n));
    } else {
        lemma_decimal_digits(x as nat);
        let d = decimal(x as nat);
        assert(is_digit(d[0]));
        assert(d[0] != '-' && d[0] != '+');
    }
}

// ---------------------------------------------------------------------------------------------
// Case mapping and debug quoting (std, behind wrappers)
// ---------------------------------------------------------------------------------------------

/// A character below 128.
pub open spec fn is_ascii_char(c: char) -> bool {
    (c as u32) < 128
}

/// Every character of `s` is ASCII.
pub open spec fn is_ascii_text(s: Seq<char>) -> bool {
    forall|i: int| 0 <= i < s.len() ==> is_ascii_char(#[trigger] s[i])
}

pub open spec fn is_ascii_upper(c: char) -> bool {
    'A' <= c && c <= 'Z'
}

pub open spec fn is_ascii_lower(c: char) -> bool {
    'a' <= c && c <= 'z'
}

/// `A`..`Z` to `a`..`z`; every other character unchanged.
pub open spec fn ascii_lower_char(c: char) -> char {
    if is_ascii_upper(c) {
        ((c as u32) + 32) as char
    } else {
        c
    }
}

/// `a`..`z` to `A`..`Z`; every other character unchanged.
pub open spec fn ascii_upper_char(c: char) -> char {
    if is_ascii_lower(c) {
        ((c as u32) - 32) as char
    } else {
        c
    }
}

pub open spec fn ascii_lower(s: Seq<char>) -> Seq<char> {
    s.map_values(|c: char| ascii_lower_char(c))
}

pub open spec fn ascii_upper(s: Seq<char>) -> Seq<char> {
    s.map_values(|c: char| ascii_upper_char(c))
}

/// What `str::to_lowercase` returns for a string that is not all ASCII: the Unicode
/// lowercase mapping.
pub uninterp spec fn lowercase_of(s: Seq<char>) -> Seq<char>;

/// What `str::to_uppercase` returns for a string that is not all ASCII: the Unicode
/// uppercase mapping.
pub uninterp spec fn uppercase_of(s: Seq<char>) -> Seq<char>;

/// `str::to_lowercase` of a string: on ASCII text the capitals become small letters and
/// nothing else changes; other text goes by the Unicode tables.
pub open spec fn lower_text(s: Seq<char>) -> Seq<char> {
    if is_ascii_text(s) {
        ascii_lower(s)
    } else {
        lowercase_of(s)
    }
}

/// `str::to_uppercase` of a string: on ASCII text the small letters become capitals and
/// nothing else changes; other text goes by the Unicode tables.
pub open spec fn upper_text(s: Seq<char>) -> Seq<char> {
    if is_ascii_text(s) {
        ascii_upper(s)
    } else {
        uppercase_of(s)
    }
}

/// What `format!("{:?}", s)` prints for a string: the text in double quotes, with
/// `str::escape_debug` escapes.
pub uninterp spec fn debug_quoted(s: Seq<char>) -> Seq<char>;

/// `str::to_lowercase`. Trusted: std documents the result as the lowercase equivalent of
/// the input under the Unicode `Lowercase` property. Stated: on ASCII input each of `A`..`Z`
/// becomes the matching small letter and every other character stays; on other input the
/// result is named `lowercase_of` of the input; and no result holds an ASCII capital letter.
/// The Unicode tables for characters beyond ASCII are not stated.
#[verifier::external_body]
pub(crate) fn to_lowercase(s: &str) -> (r: String)
    ensures
        r@ == lower_text(s@),
        !is_ascii_text(s@) ==> r@ == lowercase_of(s@),
        forall|i: int| 0 <= i < r@.len() ==> !is_ascii_upper(#[trigger] r@[i]),
{
    s.to_lowercase()
}

/// `str::to_uppercase`. Trusted: std documents the result as the uppercase equivalent of
/// the input under the Unicode `Uppercase` property. Stated: on ASCII input each of `a`..`z`
/// becomes the matching capital and every other character stays; on other input the result
/// is named `uppercase_of` of the input. The Unicode tables beyond ASCII are not stated.
#[verifier::external_body]
pub(crate) fn to_uppercase(s: &str) -> (r: String)
    ensures
        r@ == upper_text(s@),
        !is_ascii_text(s@) ==> r@ == uppercase_of(s@),
{
    s.to_uppercase()
}

/// `format!("{:?}", s)` for a string. Trusted: the result is named `debug_quoted` of the
/// input; the escaping rules are not stated.
#[verifier::external_body]
pub(crate) fn debug_quote(s: &str) -> (r: String)
    ensures
        r@ == debug_quoted(s@),
{
    format!("{:?}", s)
}

} // verus!
