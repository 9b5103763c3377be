//! Normalization of contact fields and validation of a checkout request against the
//! catalog. Prices always come from the catalog, never from the request.

use vstd::prelude::*;
use vstd::string::StringExecFns;

use crate::api::{
    CatalogItem, CatalogResponse, CartLine, CheckoutRequest, Delivery, FieldError, Fulfillment,
    ShipTo,
};
use vstd::seq_lib::lemma_concat_associative;
use crate::text::{
    all_digit_chars, any_control, ascii_lower, ascii_upper, ascii_upper_char, char_is_alnum,
    char_is_alpha, char_is_control, char_is_digit, char_is_whitespace, chars_eq, chars_of,
    chars_start_with, collapse_whitespace, collapse_whitespace_spec, decimal, has_control,
    is_alnum, is_alpha, is_ascii_char, is_ascii_text, is_ascii_upper, is_control_char, is_digit,
    is_white_space, join_spec, lemma_join_chars, lemma_join_split, lemma_split_concat,
    lemma_split_join, lemma_split_no_sep, lemma_split_nonempty, lower_text, slice_chars,
    split_chars, split_spec, string_of, to_lowercase, to_uppercase, trim, trim_end_spec,
    trim_spec, trim_start_spec, u64_decimal, upper_text, views_of,
};

verus! {

/// Gift label message limit, in characters.
pub const MAX_GIFT_MESSAGE: usize = 20;

/// A `Result` of a normalizer with both sides seen as character sequences.
pub open spec fn result_view(r: Result<String, &'static str>) -> Result<Seq<char>, Seq<char>> {
    match r {
        Ok(s) => Ok(s@),
        Err(m) => Err(m@),
    }
}

// ---------------------------------------------------------------------------------------------
// Email
// ---------------------------------------------------------------------------------------------

/// The characters allowed in the local part besides ASCII letters and digits.
pub open spec fn is_local_special(c: char) -> bool {
    c == '!' || c == '#' || c == '$' || c == '%' || c == '&' || c == '\'' || c == '*' || c == '+'
        || c == '/' || c == '=' || c == '?' || c == '^' || c == '_' || c == '`' || c == '{'
        || c == '|' || c == '}' || c == '~' || c == '.' || c == '-'
}

pub open spec fn has_double_dot(s: Seq<char>) -> bool {
    exists|i: int| 0 <= i < s.len() - 1 && #[trigger] s[i] == '.' && s[i + 1] == '.'
}

/// The part before `@`. The lengths are character counts; the accepted parts are ASCII,
/// where they equal the byte counts.
pub open spec fn local_part_ok(l: Seq<char>) -> bool {
    &&& 0 < l.len() <= 64
    &&& l[0] != '.'
    &&& l.last() != '.'
    &&& !has_double_dot(l)
    &&& forall|i: int| 0 <= i < l.len() ==> #[trigger] is_alnum(l[i]) || is_local_special(l[i])
}

/// One dot-separated label of the domain.
pub open spec fn label_ok(l: Seq<char>) -> bool {
    &&& 0 < l.len() <= 63
    &&& l[0] != '-'
    &&& l.last() != '-'
    &&& forall|i: int| 0 <= i < l.len() ==> #[trigger] is_alnum(l[i]) || l[i] == '-'
}

pub open spec fn tld_ok(t: Seq<char>) -> bool {
    &&& t.len() >= 2
    &&& forall|i: int| 0 <= i < t.len() ==> #[trigger] is_alpha(t[i])
}

pub open spec fn domain_ok(d: Seq<char>) -> bool {
    let labels = split_spec(d, '.');
    &&& labels.len() >= 2
    &&& forall|i: int| 0 <= i < labels.len() ==> #[trigger] label_ok(labels[i])
    &&& tld_ok(labels.last())
}

pub open spec fn has_white_or_control(s: Seq<char>) -> bool {
    exists|i: int| 0 <= i < s.len() && (is_white_space(#[trigger] s[i]) || is_control_char(s[i]))
}

/// Syntax of a normalized email address: one `@`, a sane local part and a domain of at least
/// two labels whose last is alphabetic.
pub open spec fn email_ok(e: Seq<char>) -> bool {
    let parts = split_spec(e, '@');
    &&& e.len() <= 254
    &&& !has_white_or_control(e)
    &&& parts.len() == 2
    &&& local_part_ok(parts[0])
    &&& domain_ok(parts[1])
}

/// The address that is checked: trimmed, then lowercased.
pub open spec fn email_candidate(input: Seq<char>) -> Seq<char> {
    lower_text(trim_spec(input))
}

#[verifier::opaque]
pub open spec fn email_result(input: Seq<char>) -> Result<Seq<char>, Seq<char>> {
    let e = email_candidate(input);
    if e.len() == 0 {
        Err("Enter your email address."@)
    } else if !email_ok(e) {
        Err("That doesn't look like a valid email address."@)
    } else {
        Ok(e)
    }
}

fn has_white_or_control_exec(s: &Vec<char>) -> (r: bool)
    ensures
        r == has_white_or_control(s@),
{
    let mut i: usize = 0;
    while i < s.len()
        invariant
            i <= s.len(),
            forall|j: int| 0 <= j < i ==> !(is_white_space(#[trigger] s@[j]) || is_control_char(s@[j])),
        decreases s.len() - i,
    {
        if char_is_whitespace(s[i]) || char_is_control(s[i]) {
            assert(is_white_space(s@[i as int]) || is_control_char(s@[i as int]));
            return true;
        }
        i = i + 1;
    }
    false
}

fn is_local_special_exec(c: char) -> (r: bool)
    ensures
        r == is_local_special(c),
{
    c == '!' || c == '#' || c == '$' || c == '%' || c == '&' || c == '\'' || c == '*' || c == '+'
        || c == '/' || c == '=' || c == '?' || c == '^' || c == '_' || c == '`' || c == '{'
        || c == '|' || c == '}' || c == '~' || c == '.' || c == '-'
}

fn local_part_ok_exec(l: &Vec<char>) -> (r: bool)
    ensures
        r == local_part_ok(l@),
{
    if l.len() == 0 || l.len() > 64 {
        return false;
    }
    if l[0] == '.' || l[l.len() - 1] == '.' {
        return false;
    }
    let mut i: usize = 0;
    while i < l.len()
        invariant
            0 < l.len() <= 64,
            i <= l.len(),
            forall|j: int| 0 <= j < i ==> #[trigger] is_alnum(l@[j]) || is_local_special(l@[j]),
            forall|j: int| 0 <= j < i && j < l.len() - 1 ==> !(#[trigger] l@[j] == '.' && l@[j + 1] == '.'),
        decreases l.len() - i,
    {
        if !(char_is_alnum(l[i]) || is_local_special_exec(l[i])) {
            return false;
        }
        if i + 1 < l.len() && l[i] == '.' && l[i + 1] == '.' {
            assert(l@[i as int] == '.' && l@[i + 1] == '.');
            return false;
        }
        i = i + 1;
    }
    true
}

fn label_ok_exec(l: &Vec<char>) -> (r: bool)
    ensures
        r == label_ok(l@),
{
    if l.len() == 0 || l.len() > 63 {
        return false;
    }
    if l[0] == '-' || l[l.len() - 1] == '-' {
        return false;
    }
    let mut i: usize = 0;
    while i < l.len()
        invariant
            i <= l.len(),
            forall|j: int| 0 <= j < i ==> #[trigger] is_alnum(l@[j]) || l@[j] == '-',
        decreases l.len() - i,
    {
        if !(char_is_alnum(l[i]) || l[i] == '-') {
            return false;
        }
        i = i + 1;
    }
    true
}

fn tld_ok_exec(t: &Vec<char>) -> (r: bool)
    ensures
        r == tld_ok(t@),
{
    if t.len() < 2 {
        return false;
    }
    let mut i: usize = 0;
    while i < t.len()
        invariant
            i <= t.len(),
            forall|j: int| 0 <= j < i ==> #[trigger] is_alpha(t@[j]),
        decreases t.len() - i,
    {
        if !char_is_alpha(t[i]) {
            return false;
        }
        i = i + 1;
    }
    true
}

fn domain_ok_exec(d: &Vec<char>) -> (r: bool)
    ensures
        r == domain_ok(d@),
{
    let labels = split_chars(d, '.');
    let ghost ls = split_spec(d@, '.');
    assert(views_of(labels@) == ls);
    if labels.len() < 2 {
        return false;
    }
    let mut i: usize = 0;
    while i < labels.len()
        invariant
            i <= labels.len(),
            views_of(labels@) == ls,
            ls == split_spec(d@, '.'),
            forall|j: int| 0 <= j < i ==> #[trigger] label_ok(ls[j]),
        decreases labels.len() - i,
    {
        assert(labels@[i as int]@ == ls[i as int]);
        if !label_ok_exec(&labels[i]) {
            assert(!label_ok(ls[i as int]));
            return false;
        }
        i = i + 1;
    }
    assert(labels@[labels.len() - 1]@ == ls.last());
    tld_ok_exec(&labels[labels.len() - 1])
}

/// Text that `split_spec` cuts into ASCII pieces at an ASCII separator is ASCII.
proof fn lemma_split_ascii(s: Seq<char>, sep: char)
    requires
        is_ascii_char(sep),
        forall|k: int|
            0 <= k < split_spec(s, sep).len() ==> is_ascii_text(#[trigger] split_spec(s, sep)[k]),
    ensures
        is_ascii_text(s),
    decreases s.len(),
{
    if s.len() > 0 {
        let prev = split_spec(s.drop_last(), sep);
        let parts = split_spec(s, sep);
        lemma_split_nonempty(s.drop_last(), sep);
        if s.last() == sep {
            assert forall|k: int| 0 <= k < prev.len() implies is_ascii_text(#[trigger] prev[k]) by {
                assert(prev[k] == parts[k]);
            }
        } else {
            let n = prev.len() - 1;
            assert forall|k: int| 0 <= k < prev.len() implies is_ascii_text(#[trigger] prev[k]) by {
                if k < n {
                    assert(prev[k] == parts[k]);
                } else {
                    let p = parts[n];
                    assert(p == prev[n].push(s.last()));
                    assert(is_ascii_text(p));
                    assert forall|j: int| 0 <= j < prev[n].len() implies is_ascii_char(
                        #[trigger] prev[n][j],
                    ) by {
                        assert(p[j] == prev[n][j]);
                    }
                }
            }
            let p = parts[n];
            assert(p[p.len() - 1] == s.last());
        }
        lemma_split_ascii(s.drop_last(), sep);
        assert forall|j: int| 0 <= j < s.len() implies is_ascii_char(#[trigger] s[j]) by {
            if j < s.len() - 1 {
                assert(s[j] == s.drop_last()[j]);
            }
        }
    }
}

/// An address that `email_ok` accepts is ASCII text.
proof fn lemma_email_ok_ascii(e: Seq<char>)
    requires
        email_ok(e),
    ensures
        is_ascii_text(e),
{
    let parts = split_spec(e, '@');
    let l = parts[0];
    let d = parts[1];
    assert forall|j: int| 0 <= j < l.len() implies is_ascii_char(#[trigger] l[j]) by {
        assert(is_alnum(l[j]) || is_local_special(l[j]));
    }
    let labels = split_spec(d, '.');
    assert forall|k: int| 0 <= k < labels.len() implies is_ascii_text(#[trigger] labels[k]) by {
        assert(label_ok(labels[k]));
        assert forall|j: int| 0 <= j < labels[k].len() implies is_ascii_char(
            #[trigger] labels[k][j],
        ) by {
            assert(is_alnum(labels[k][j]) || labels[k][j] == '-');
        }
    }
    lemma_split_ascii(d, '.');
    assert forall|k: int| 0 <= k < parts.len() implies is_ascii_text(#[trigger] parts[k]) by {
        if k == 0 {
            assert(parts[k] == l);
        } else {
            assert(parts[k] == d);
        }
    }
    lemma_split_ascii(e, '@');
}

/// Text with no whitespace is its own trim.
proof fn lemma_trim_clean(s: Seq<char>)
    requires
        !has_white_or_control(s),
    ensures
        trim_spec(s) == s,
{
    if s.len() > 0 {
        assert(!is_white_space(s[0]));
        assert(trim_start_spec(s) == s);
        assert(!is_white_space(s[s.len() - 1]));
        assert(trim_end_spec(s) == s);
    }
}

/// An ASCII letter.
pub open spec fn ascii_letter(c: char) -> bool {
    ('a' <= c && c <= 'z') || ('A' <= c && c <= 'Z')
}

/// An ASCII letter or digit.
pub open spec fn ascii_letter_or_digit(c: char) -> bool {
    ascii_letter(c) || ('0' <= c && c <= '9')
}

/// The symbols a local part may hold besides letters and digits:
/// `! # $ % & ' * + / = ? ^ _ ` { | } ~ . -`.
pub open spec fn local_symbol(c: char) -> bool {
    ||| c == '!' ||| c == '#' ||| c == '$' ||| c == '%' ||| c == '&' ||| c == '\''
    ||| c == '*' ||| c == '+' ||| c == '/' ||| c == '=' ||| c == '?' ||| c == '^'
    ||| c == '_' ||| c == '`' ||| c == '{' ||| c == '|' ||| c == '}' ||| c == '~'
    ||| c == '.' ||| c == '-'
}

/// A local part as an address may have it: 1 to 64 letters, digits and symbols, with no
/// dot at either end and no two dots in a row.
pub open spec fn good_local(l: Seq<char>) -> bool {
    &&& 1 <= l.len() <= 64
    &&& forall|i: int| 0 <= i < l.len() ==> ascii_letter_or_digit(#[trigger] l[i]) || local_symbol(l[i])
    &&& l[0] != '.'
    &&& l[l.len() - 1] != '.'
    &&& forall|i: int| 0 <= i < l.len() - 1 ==> !(#[trigger] l[i] == '.' && l[i + 1] == '.')
}

/// A domain label: 1 to 63 letters, digits and hyphens, with no hyphen at either end.
pub open spec fn good_label(x: Seq<char>) -> bool {
    &&& 1 <= x.len() <= 63
    &&& forall|j: int| 0 <= j < x.len() ==> ascii_letter_or_digit(#[trigger] x[j]) || x[j] == '-'
    &&& x[0] != '-'
    &&& x[x.len() - 1] != '-'
}

/// Two or more good labels, the last of at least two letters.
pub open spec fn good_domain(labels: Seq<Seq<char>>) -> bool {
    &&& labels.len() >= 2
    &&& forall|k: int| 0 <= k < labels.len() ==> good_label(#[trigger] labels[k])
    &&& labels[labels.len() - 1].len() >= 2
    &&& forall|j: int|
        0 <= j < labels[labels.len() - 1].len() ==> ascii_letter(#[trigger] labels[labels.len() - 1][j])
}

/// The address `local@label1.label2...`.
pub open spec fn address(l: Seq<char>, labels: Seq<Seq<char>>) -> Seq<char> {
    l + seq!['@'] + join_spec(labels, seq!['.'])
}

proof fn lemma_address_parts(l: Seq<char>, labels: Seq<Seq<char>>)
    requires
        good_local(l),
        good_domain(labels),
    ensures
        split_spec(address(l, labels), '@') == seq![l, join_spec(labels, seq!['.'])],
        split_spec(join_spec(labels, seq!['.']), '.') == labels,
        !has_white_or_control(address(l, labels)),
{
    let d = join_spec(labels, seq!['.']);
    let e = address(l, labels);
    let dp = |c: char| ascii_letter_or_digit(c) || c == '-' || c == '.';
    assert forall|k: int, j: int| 0 <= k < labels.len() && 0 <= j < labels[k].len() implies dp(
        #[trigger] labels[k][j],
    ) by {
        assert(good_label(labels[k]));
    }
    lemma_join_chars(labels, '.', dp);
    assert forall|i: int| 0 <= i < l.len() implies #[trigger] l[i] != '@' by {
        assert(ascii_letter_or_digit(l[i]) || local_symbol(l[i]));
    }
    assert forall|i: int| 0 <= i < d.len() implies #[trigger] d[i] != '@' by {
        assert(dp(d[i]));
    }
    lemma_split_no_sep(l, '@');
    lemma_split_no_sep(d, '@');
    lemma_split_concat(l, d, '@');
    assert(seq![l] + seq![d] =~= seq![l, d]);
    assert forall|k: int, j: int| 0 <= k < labels.len() && 0 <= j < labels[k].len() implies #[trigger] labels[k][j]
        != '.' by {
        assert(good_label(labels[k]));
    }
    lemma_split_join(labels, '.');
    assert forall|i: int| 0 <= i < e.len() implies !(is_white_space(#[trigger] e[i]) || is_control_char(
        e[i],
    )) by {
        if i < l.len() {
            assert(e[i] == l[i]);
            assert(ascii_letter_or_digit(l[i]) || local_symbol(l[i]));
        } else if i > l.len() {
            assert(e[i] == d[i - l.len() - 1]);
            assert(dp(d[i - l.len() - 1]));
        }
    }
}

/// Every address built from a good local part and good labels, 254 characters at most, is
/// syntactically valid: in particular a hyphen inside a label never makes it invalid.
pub proof fn lemma_email_ok_for_good_addresses(l: Seq<char>, labels: Seq<Seq<char>>)
    requires
        good_local(l),
        good_domain(labels),
        address(l, labels).len() <= 254,
    ensures
        email_ok(address(l, labels)),
{
    lemma_address_parts(l, labels);
    let e = address(l, labels);
    let parts = split_spec(e, '@');
    assert(parts[0] == l);
    assert(parts[1] == join_spec(labels, seq!['.']));
    assert forall|i: int| 0 <= i < l.len() implies #[trigger] is_alnum(l[i]) || is_local_special(l[i]) by {
        assert(ascii_letter_or_digit(l[i]) || local_symbol(l[i]));
    }
    assert(!has_double_dot(l)) by {
        if has_double_dot(l) {
            let i = choose|i: int| 0 <= i < l.len() - 1 && #[trigger] l[i] == '.' && l[i + 1] == '.';
            assert(!(l[i] == '.' && l[i + 1] == '.'));
        }
    }
    assert(l.last() == l[l.len() - 1]);
    assert(local_part_ok(l));
    assert forall|k: int| 0 <= k < labels.len() implies #[trigger] label_ok(labels[k]) by {
        let x = labels[k];
        assert(good_label(x));
        assert(x.last() == x[x.len() - 1]);
        assert forall|j: int| 0 <= j < x.len() implies #[trigger] is_alnum(x[j]) || x[j] == '-' by {
            assert(ascii_letter_or_digit(x[j]) || x[j] == '-');
        }
    }
    let t = labels.last();
    assert forall|j: int| 0 <= j < t.len() implies #[trigger] is_alpha(t[j]) by {
        assert(ascii_letter(labels[labels.len() - 1][j]));
    }
    assert(tld_ok(t));
    assert(domain_ok(join_spec(labels, seq!['.'])));
}

/// `normalize_email` accepts every address built from a good local part and good labels,
/// 254 characters at most and written in small letters, and gives it back unchanged (so
/// `pat@my-site.com` is accepted as it is).
pub proof fn lemma_normalize_email_accepts(l: Seq<char>, labels: Seq<Seq<char>>)
    requires
        good_local(l),
        good_domain(labels),
        address(l, labels).len() <= 254,
        forall|i: int| 0 <= i < address(l, labels).len() ==> !is_ascii_upper(#[trigger] address(l, labels)[i]),
    ensures
        email_result(address(l, labels)) == Ok::<Seq<char>, Seq<char>>(address(l, labels)),
{
    reveal(email_result);
    lemma_email_ok_for_good_addresses(l, labels);
    let e = address(l, labels);
    lemma_email_ok_ascii(e);
    lemma_address_parts(l, labels);
    lemma_trim_clean(e);
    assert(ascii_lower(e) =~= e);
}

/// Every valid address is one built from a good local part and good labels, 254 characters
/// at most.
pub proof fn lemma_good_addresses_only(e: Seq<char>)
    requires
        email_ok(e),
    ensures
        exists|l: Seq<char>, labels: Seq<Seq<char>>|
            good_local(l) && good_domain(labels) && e == #[trigger] address(l, labels) && e.len() <= 254,
{
    let parts = split_spec(e, '@');
    let l = parts[0];
    let d = parts[1];
    let labels = split_spec(d, '.');
    lemma_join_split(e, '@');
    lemma_join_split(d, '.');
    assert(parts.drop_last() =~= seq![l]);
    assert(join_spec(seq![l], seq!['@']) == l);
    assert(e == l + seq!['@'] + d);
    assert(local_part_ok(l));
    assert forall|i: int| 0 <= i < l.len() implies ascii_letter_or_digit(#[trigger] l[i]) || local_symbol(l[i]) by {
        assert(is_alnum(l[i]) || is_local_special(l[i]));
    }
    assert forall|i: int| 0 <= i < l.len() - 1 implies !(#[trigger] l[i] == '.' && l[i + 1] == '.') by {
        if l[i] == '.' && l[i + 1] == '.' {
            assert(has_double_dot(l));
        }
    }
    assert(l.last() == l[l.len() - 1]);
    assert(good_local(l));
    assert forall|k: int| 0 <= k < labels.len() implies good_label(#[trigger] labels[k]) by {
        let x = labels[k];
        assert(label_ok(x));
        assert(x.last() == x[x.len() - 1]);
        assert forall|j: int| 0 <= j < x.len() implies ascii_letter_or_digit(#[trigger] x[j]) || x[j] == '-' by {
            assert(is_alnum(x[j]) || x[j] == '-');
        }
    }
    let t = labels[labels.len() - 1];
    assert(tld_ok(labels.last()));
    assert forall|j: int| 0 <= j < t.len() implies ascii_letter(#[trigger] t[j]) by {
        assert(is_alpha(t[j]));
    }
    assert(good_domain(labels));
    assert(e == address(l, labels));
}

/// Trim, lowercase and syntax-check an email address.
///
/// An accepted address normalizes to itself.
pub fn normalize_email(input: &str) -> (r: Result<String, &'static str>)
    ensures
        result_view(r) == email_result(input@),
        r matches Ok(e) ==> email_result(e@) == Ok::<Seq<char>, Seq<char>>(e@),
{
    reveal(email_result);
    let t = trim(input);
    let e = to_lowercase(t.as_str());
    let ec = chars_of(e.as_str());
    if ec.len() == 0 {
        return Err("Enter your email address.");
    }
    let bad = "That doesn't look like a valid email address.";
    if ec.len() > 254 || has_white_or_control_exec(&ec) {
        return Err(bad);
    }
    let parts = split_chars(&ec, '@');
    assert(views_of(parts@) == split_spec(ec@, '@'));
    if parts.len() != 2 {
        return Err(bad);
    }
    assert(parts@[0]@ == split_spec(ec@, '@')[0]);
    assert(parts@[1]@ == split_spec(ec@, '@')[1]);
    if !local_part_ok_exec(&parts[0]) {
        return Err(bad);
    }
    if !domain_ok_exec(&parts[1]) {
        return Err(bad);
    }
    proof {
        lemma_email_ok_ascii(e@);
        lemma_trim_clean(e@);
        assert(ascii_lower(e@) =~= e@);
    }
    Ok(e)
}

// ---------------------------------------------------------------------------------------------
// Phone
// ---------------------------------------------------------------------------------------------

/// The ASCII digits of `s`, in order.
pub open spec fn digits_of(s: Seq<char>) -> Seq<char> {
    s.filter(|c: char| is_digit(c))
}

/// The ten digits that are checked: a leading country code `1` of an eleven-digit number is
/// dropped.
pub open spec fn phone_digits(input: Seq<char>) -> Seq<char> {
    let d = digits_of(input);
    if d.len() == 11 && d[0] == '1' {
        d.drop_first()
    } else {
        d
    }
}

#[verifier::opaque]
pub open spec fn phone_result(input: Seq<char>) -> Result<Seq<char>, Seq<char>> {
    let d = phone_digits(input);
    if trim_spec(input).len() == 0 {
        Err("Enter a phone number."@)
    } else if d.len() == 10 && d[0] != '0' && d[0] != '1' && d[3] != '0' && d[3] != '1' {
        Ok(d.subrange(0, 3) + seq!['-'] + d.subrange(3, 6) + seq!['-'] + d.subrange(6, 10))
    } else {
        Err("Enter a 10-digit US phone number."@)
    }
}

fn digits_in(s: &Vec<char>) -> (d: Vec<char>)
    ensures
        d@ == digits_of(s@),
{
    let mut d: Vec<char> = Vec::new();
    let mut i: usize = 0;
    while i < s.len()
        invariant
            i <= s.len(),
            d@ == digits_of(s@.take(i as int)),
        decreases s.len() - i,
    {
        proof {
            reveal_with_fuel(Seq::<_>::filter, 1);
            assert(s@.take(i + 1).drop_last() =~= s@.take(i as int));
        }
        if char_is_digit(s[i]) {
            d.push(s[i]);
        }
        i = i + 1;
    }
    assert(s@.take(s.len() as int) =~= s@);
    d
}

/// US phone number to `NNN-NNN-NNNN`.
pub fn normalize_phone(input: &str) -> (r: Result<String, &'static str>)
    ensures
        result_view(r) == phone_result(input@),
{
    reveal(phone_result);
    let cs = chars_of(input);
    let mut digits = digits_in(&cs);
    let t = trim(input);
    if t.as_str().is_empty() {
        return Err("Enter a phone number.");
    }
    if digits.len() == 11 && digits[0] == '1' {
        digits.remove(0);
    }
    assert(digits@ == phone_digits(input@));
    let valid = digits.len() == 10 && digits[0] != '0' && digits[0] != '1' && digits[3] != '0'
        && digits[3] != '1';
    if !valid {
        return Err("Enter a 10-digit US phone number.");
    }
    let mut out = slice_chars(&digits, 0, 3);
    out.push('-');
    let mid = slice_chars(&digits, 3, 6);
    let mut k: usize = 0;
    let ghost start = out@;
    while k < mid.len()
        invariant
            k <= mid.len(),
            out@ == start + mid@.take(k as int),
        decreases mid.len() - k,
    {
        out.push(mid[k]);
        k = k + 1;
        assert(out@ =~= start + mid@.take(k as int));
    }
    out.push('-');
    let tail = slice_chars(&digits, 6, 10);
    let mut k: usize = 0;
    let ghost start2 = out@;
    while k < tail.len()
        invariant
            k <= tail.len(),
            out@ == start2 + tail@.take(k as int),
        decreases tail.len() - k,
    {
        out.push(tail[k]);
        k = k + 1;
        assert(out@ =~= start2 + tail@.take(k as int));
    }
    assert(mid@.take(3) =~= mid@);
    assert(tail@.take(4) =~= tail@);
    assert(out@ =~= digits@.subrange(0, 3) + seq!['-'] + digits@.subrange(3, 6) + seq!['-']
        + digits@.subrange(6, 10));
    Ok(string_of(&out))
}

// ---------------------------------------------------------------------------------------------
// ZIP and state
// ---------------------------------------------------------------------------------------------

/// `12345` or `12345-6789`.
pub open spec fn zip_shape_ok(z: Seq<char>) -> bool {
    ||| z.len() == 5 && all_digit_chars(z)
    ||| z.len() == 10 && all_digit_chars(z.take(5)) && z[5] == '-' && all_digit_chars(z.skip(6))
}

#[verifier::opaque]
pub open spec fn zip_result(input: Seq<char>) -> Result<Seq<char>, Seq<char>> {
    let z = trim_spec(input);
    if zip_shape_ok(z) {
        Ok(z)
    } else {
        Err("Enter a 5-digit ZIP code."@)
    }
}

/// The number of bytes that `c` takes in UTF-8 (`char::len_utf8`).
pub open spec fn utf8_width(c: char) -> nat {
    if (c as u32) < 0x80 {
        1
    } else if (c as u32) < 0x800 {
        2
    } else if (c as u32) < 0x10000 {
        3
    } else {
        4
    }
}

/// The number of bytes that `s` takes in UTF-8 (`str::len`).
pub open spec fn utf8_len(s: Seq<char>) -> nat
    decreases s.len(),
{
    if s.len() == 0 {
        0
    } else {
        utf8_len(s.drop_last()) + utf8_width(s.last())
    }
}

/// The ZIP check cuts a ten-byte input after its fifth byte (`str::split_at`), which panics
/// unless that byte ends a character.
pub open spec fn zip_input_ok(input: Seq<char>) -> bool {
    let t = trim_spec(input);
    utf8_len(t) == 10 ==> exists|k: int| 0 <= k <= t.len() && #[trigger] utf8_len(t.take(k)) == 5
}

proof fn lemma_utf8_len_mono(s: Seq<char>, k: int)
    requires
        0 <= k <= s.len(),
    ensures
        utf8_len(s.take(k)) <= utf8_len(s),
    decreases s.len() - k,
{
    if k < s.len() {
        assert(s.drop_last().take(k) =~= s.take(k));
        lemma_utf8_len_mono(s.drop_last(), k);
    } else {
        assert(s.take(k) =~= s);
    }
}

fn char_width(c: char) -> (w: u64)
    ensures
        w == utf8_width(c),
{
    let u = c as u32;
    if u < 0x80 {
        1
    } else if u < 0x800 {
        2
    } else if u < 0x10000 {
        3
    } else {
        4
    }
}

/// Whether `normalize_zip` can be called on `input` (see `zip_input_ok`).
pub fn zip_input_checkable(input: &str) -> (r: bool)
    ensures
        r == zip_input_ok(input@),
{
    let t = trim(input);
    let z = chars_of(t.as_str());
    let ghost tz = trim_spec(input@);
    let mut bytes: u64 = 0;
    let mut hit_five = false;
    let mut i: usize = 0;
    while i < z.len()
        invariant
            z@ == tz,
            tz == trim_spec(input@),
            i <= z.len(),
            bytes == utf8_len(tz.take(i as int)),
            bytes <= 10,
            hit_five == exists|k: int| 0 <= k <= i && #[trigger] utf8_len(tz.take(k)) == 5,
        decreases z.len() - i,
    {
        proof {
            assert(tz.take(i + 1).drop_last() =~= tz.take(i as int));
            assert(tz.take(i + 1).last() == z@[i as int]);
        }
        let next = bytes + char_width(z[i]);
        assert(next == utf8_len(tz.take(i + 1)));
        if next > 10 {
            proof {
                lemma_utf8_len_mono(tz, i + 1);
            }
            return true;
        }
        let ghost old_hit = hit_five;
        bytes = next;
        i = i + 1;
        if bytes == 5 {
            hit_five = true;
        }
        proof {
            assert(utf8_len(tz.take(i as int)) == bytes);
            if hit_five {
                if !old_hit {
                    assert(utf8_len(tz.take(i as int)) == 5);
                }
            } else {
                assert forall|k: int| 0 <= k <= i implies #[trigger] utf8_len(tz.take(k)) != 5 by {
                    if k == i {
                        assert(utf8_len(tz.take(k)) == bytes);
                    }
                }
            }
        }
    }
    assert(tz.take(z.len() as int) =~= tz);
    bytes != 10 || hit_five
}

/// Accepts `12345` or `12345-6789`.
pub fn normalize_zip(input: &str) -> (r: Result<String, &'static str>)
    requires
        zip_input_ok(input@),
    ensures
        result_view(r) == zip_result(input@),
{
    reveal(zip_result);
    let t = trim(input);
    let z = chars_of(t.as_str());
    let ok = if z.len() == 5 {
        all_digits(&z)
    } else if z.len() == 10 {
        let a = slice_chars(&z, 0, 5);
        let b = slice_chars(&z, 6, 10);
        assert(z@.take(5) =~= a@);
        assert(z@.skip(6) =~= b@);
        all_digits(&a) && z[5] == '-' && all_digits(&b)
    } else {
        false
    };
    if ok {
        Ok(t)
    } else {
        Err("Enter a 5-digit ZIP code.")
    }
}

fn all_digits(s: &Vec<char>) -> (r: bool)
    ensures
        r == all_digit_chars(s@),
{
    crate::text::all_digits(s)
}

/// The two-letter codes of the 50 states and DC.
pub open spec fn is_state_code(a: char, b: char) -> bool {
    match (a, b) {
        ('A', 'L') | ('A', 'K') | ('A', 'Z') | ('A', 'R') | ('C', 'A') | ('C', 'O') | ('C', 'T')
        | ('D', 'E') | ('D', 'C') | ('F', 'L') | ('G', 'A') | ('H', 'I') | ('I', 'D') | ('I', 'L')
        | ('I', 'N') | ('I', 'A') | ('K', 'S') | ('K', 'Y') | ('L', 'A') | ('M', 'E') | ('M', 'D')
        | ('M', 'A') | ('M', 'I') | ('M', 'N') | ('M', 'S') | ('M', 'O') | ('M', 'T') | ('N', 'E')
        | ('N', 'V') | ('N', 'H') | ('N', 'J') | ('N', 'M') | ('N', 'Y') | ('N', 'C') | ('N', 'D')
        | ('O', 'H') | ('O', 'K') | ('O', 'R') | ('P', 'A') | ('R', 'I') | ('S', 'C') | ('S', 'D')
        | ('T', 'N') | ('T', 'X') | ('U', 'T') | ('V', 'T') | ('V', 'A') | ('W', 'A') | ('W', 'V')
        | ('W', 'I') | ('W', 'Y') => true,
        _ => false,
    }
}

pub open spec fn is_us_state(s: Seq<char>) -> bool {
    s.len() == 2 && is_state_code(s[0], s[1])
}

fn is_state_code_exec(a: char, b: char) -> (r: bool)
    ensures
        r == is_state_code(a, b),
{
    match (a, b) {
        ('A', 'L') | ('A', 'K') | ('A', 'Z') | ('A', 'R') | ('C', 'A') | ('C', 'O') | ('C', 'T')
        | ('D', 'E') | ('D', 'C') | ('F', 'L') | ('G', 'A') | ('H', 'I') | ('I', 'D') | ('I', 'L')
        | ('I', 'N') | ('I', 'A') | ('K', 'S') | ('K', 'Y') | ('L', 'A') | ('M', 'E') | ('M', 'D')
        | ('M', 'A') | ('M', 'I') | ('M', 'N') | ('M', 'S') | ('M', 'O') | ('M', 'T') | ('N', 'E')
        | ('N', 'V') | ('N', 'H') | ('N', 'J') | ('N', 'M') | ('N', 'Y') | ('N', 'C') | ('N', 'D')
        | ('O', 'H') | ('O', 'K') | ('O', 'R') | ('P', 'A') | ('R', 'I') | ('S', 'C') | ('S', 'D')
        | ('T', 'N') | ('T', 'X') | ('U', 'T') | ('V', 'T') | ('V', 'A') | ('W', 'A') | ('W', 'V')
        | ('W', 'I') | ('W', 'Y') => true,
        _ => false,
    }
}

#[verifier::opaque]
pub open spec fn state_result(input: Seq<char>) -> Result<Seq<char>, Seq<char>> {
    let s = upper_text(trim_spec(input));
    if is_us_state(s) {
        Ok(s)
    } else {
        Err("Choose a US state."@)
    }
}

/// The USPS codes of the 50 states and DC.
pub open spec fn usps_codes() -> Seq<Seq<char>> {
    seq![
        seq!['A', 'L'],
        seq!['A', 'K'],
        seq!['A', 'Z'],
        seq!['A', 'R'],
        seq!['C', 'A'],
        seq!['C', 'O'],
        seq!['C', 'T'],
        seq!['D', 'E'],
        seq!['D', 'C'],
        seq!['F', 'L'],
        seq!['G', 'A'],
        seq!['H', 'I'],
        seq!['I', 'D'],
        seq!['I', 'L'],
        seq!['I', 'N'],
        seq!['I', 'A'],
        seq!['K', 'S'],
        seq!['K', 'Y'],
        seq!['L', 'A'],
        seq!['M', 'E'],
        seq!['M', 'D'],
        seq!['M', 'A'],
        seq!['M', 'I'],
        seq!['M', 'N'],
        seq!['M', 'S'],
        seq!['M', 'O'],
        seq!['M', 'T'],
        seq!['N', 'E'],
        seq!['N', 'V'],
        seq!['N', 'H'],
        seq!['N', 'J'],
        seq!['N', 'M'],
        seq!['N', 'Y'],
        seq!['N', 'C'],
        seq!['N', 'D'],
        seq!['O', 'H'],
        seq!['O', 'K'],
        seq!['O', 'R'],
        seq!['P', 'A'],
        seq!['R', 'I'],
        seq!['S', 'C'],
        seq!['S', 'D'],
        seq!['T', 'N'],
        seq!['T', 'X'],
        seq!['U', 'T'],
        seq!['V', 'T'],
        seq!['V', 'A'],
        seq!['W', 'A'],
        seq!['W', 'V'],
        seq!['W', 'I'],
        seq!['W', 'Y'],
    ]
}

/// A two-letter code in capitals normalizes to itself, and so does any way of writing it in
/// ASCII letters of either case.
proof fn lemma_state_text(s: Seq<char>, c: Seq<char>)
    requires
        s.len() == 2,
        c.len() == 2,
        ascii_upper(s) == c,
        is_ascii_upper(c[0]) && is_ascii_upper(c[1]),
    ensures
        trim_spec(s) == s,
        upper_text(s) == c,
{
    assert(ascii_upper(s)[0] == ascii_upper_char(s[0]));
    assert(ascii_upper(s)[1] == ascii_upper_char(s[1]));
    assert(!is_white_space(s[0]) && !is_white_space(s[1]));
    assert(trim_start_spec(s) == s);
    assert(s.last() == s[1]);
    assert(trim_end_spec(s) == s);
    assert(is_ascii_text(s)) by {
        assert forall|i: int| 0 <= i < s.len() implies is_ascii_char(#[trigger] s[i]) by {
            assert(i == 0 || i == 1);
        }
    }
}

/// `normalize_state` accepts exactly the 50 state codes and DC: a code is accepted if and
/// only if it is one of the 51 USPS codes, and each of them, written in ASCII letters of
/// either case, normalizes to its capitals.
pub proof fn lemma_state_codes()
    ensures
        usps_codes().len() == 51,
        forall|c: Seq<char>| #[trigger] is_us_state(c) <==> usps_codes().contains(c),
        forall|s: Seq<char>, i: int|
            #![trigger ascii_upper(s), usps_codes()[i]]
            0 <= i < usps_codes().len() && s.len() == 2 && ascii_upper(s) == usps_codes()[i]
                ==> state_result(s) == Ok::<Seq<char>, Seq<char>>(usps_codes()[i]),
{
    reveal(state_result);
    let codes = usps_codes();
    assert forall|i: int| 0 <= i < codes.len() implies #[trigger] is_us_state(codes[i])
        && is_ascii_upper(codes[i][0]) && is_ascii_upper(codes[i][1]) by {
    }
    assert forall|c: Seq<char>| #[trigger] is_us_state(c) implies codes.contains(c) by {
        if c[0] == 'A' && c[1] == 'L' {
            assert(usps_codes()[0] =~= c);
        } else if c[0] == 'A' && c[1] == 'K' {
            assert(usps_codes()[1] =~= c);
        } else if c[0] == 'A' && c[1] == 'Z' {
            assert(usps_codes()[2] =~= c);
        } else if c[0] == 'A' && c[1] == 'R' {
            assert(usps_codes()[3] =~= c);
        } else if c[0] == 'C' && c[1] == 'A' {
            assert(usps_codes()[4] =~= c);
        } else if c[0] == 'C' && c[1] == 'O' {
            assert(usps_codes()[5] =~= c);
        } else if c[0] == 'C' && c[1] == 'T' {
            assert(usps_codes()[6] =~= c);
        } else if c[0] == 'D' && c[1] == 'E' {
            assert(usps_codes()[7] =~= c);
        } else if c[0] == 'D' && c[1] == 'C' {
            assert(usps_codes()[8] =~= c);
        } else if c[0] == 'F' && c[1] == 'L' {
            assert(usps_codes()[9] =~= c);
        } else if c[0] == 'G' && c[1] == 'A' {
            assert(usps_codes()[10] =~= c);
        } else if c[0] == 'H' && c[1] == 'I' {
            assert(usps_codes()[11] =~= c);
        } else if c[0] == 'I' && c[1] == 'D' {
            assert(usps_codes()[12] =~= c);
        } else if c[0] == 'I' && c[1] == 'L' {
            assert(usps_codes()[13] =~= c);
        } else if c[0] == 'I' && c[1] == 'N' {
            assert(usps_codes()[14] =~= c);
        } else if c[0] == 'I' && c[1] == 'A' {
            assert(usps_codes()[15] =~= c);
        } else if c[0] == 'K' && c[1] == 'S' {
            assert(usps_codes()[16] =~= c);
        } else if c[0] == 'K' && c[1] == 'Y' {
            assert(usps_codes()[17] =~= c);
        } else if c[0] == 'L' && c[1] == 'A' {
            assert(usps_codes()[18] =~= c);
        } else if c[0] == 'M' && c[1] == 'E' {
            assert(usps_codes()[19] =~= c);
        } else if c[0] == 'M' && c[1] == 'D' {
            assert(usps_codes()[20] =~= c);
        } else if c[0] == 'M' && c[1] == 'A' {
            assert(usps_codes()[21] =~= c);
        } else if c[0] == 'M' && c[1] == 'I' {
            assert(usps_codes()[22] =~= c);
        } else if c[0] == 'M' && c[1] == 'N' {
            assert(usps_codes()[23] =~= c);
        } else if c[0] == 'M' && c[1] == 'S' {
            assert(usps_codes()[24] =~= c);
        } else if c[0] == 'M' && c[1] == 'O' {
            assert(usps_codes()[25] =~= c);
        } else if c[0] == 'M' && c[1] == 'T' {
            assert(usps_codes()[26] =~= c);
        } else if c[0] == 'N' && c[1] == 'E' {
            assert(usps_codes()[27] =~= c);
        } else if c[0] == 'N' && c[1] == 'V' {
            assert(usps_codes()[28] =~= c);
        } else if c[0] == 'N' && c[1] == 'H' {
            assert(usps_codes()[29] =~= c);
        } else if c[0] == 'N' && c[1] == 'J' {
            assert(usps_codes()[30] =~= c);
        } else if c[0] == 'N' && c[1] == 'M' {
            assert(usps_codes()[31] =~= c);
        } else if c[0] == 'N' && c[1] == 'Y' {
            assert(usps_codes()[32] =~= c);
        } else if c[0] == 'N' && c[1] == 'C' {
            assert(usps_codes()[33] =~= c);
        } else if c[0] == 'N' && c[1] == 'D' {
            assert(usps_codes()[34] =~= c);
        } else if c[0] == 'O' && c[1] == 'H' {
            assert(usps_codes()[35] =~= c);
        } else if c[0] == 'O' && c[1] == 'K' {
            assert(usps_codes()[36] =~= c);
        } else if c[0] == 'O' && c[1] == 'R' {
            assert(usps_codes()[37] =~= c);
        } else if c[0] == 'P' && c[1] == 'A' {
            assert(usps_codes()[38] =~= c);
        } else if c[0] == 'R' && c[1] == 'I' {
            assert(usps_codes()[39] =~= c);
        } else if c[0] == 'S' && c[1] == 'C' {
            assert(usps_codes()[40] =~= c);
        } else if c[0] == 'S' && c[1] == 'D' {
            assert(usps_codes()[41] =~= c);
        } else if c[0] == 'T' && c[1] == 'N' {
            assert(usps_codes()[42] =~= c);
        } else if c[0] == 'T' && c[1] == 'X' {
            assert(usps_codes()[43] =~= c);
        } else if c[0] == 'U' && c[1] == 'T' {
            assert(usps_codes()[44] =~= c);
        } else if c[0] == 'V' && c[1] == 'T' {
            assert(usps_codes()[45] =~= c);
        } else if c[0] == 'V' && c[1] == 'A' {
            assert(usps_codes()[46] =~= c);
        } else if c[0] == 'W' && c[1] == 'A' {
            assert(usps_codes()[47] =~= c);
        } else if c[0] == 'W' && c[1] == 'V' {
            assert(usps_codes()[48] =~= c);
        } else if c[0] == 'W' && c[1] == 'I' {
            assert(usps_codes()[49] =~= c);
        } else if c[0] == 'W' && c[1] == 'Y' {
            assert(usps_codes()[50] =~= c);
        }
    }
    assert forall|s: Seq<char>, i: int|
        #![trigger ascii_upper(s), usps_codes()[i]]
        0 <= i < codes.len() && s.len() == 2 && ascii_upper(s) == codes[i] implies state_result(s)
        == Ok::<Seq<char>, Seq<char>>(codes[i]) by {
        lemma_state_text(s, codes[i]);
    }
}

pub fn normalize_state(input: &str) -> (r: Result<String, &'static str>)
    ensures
        result_view(r) == state_result(input@),
{
    reveal(state_result);
    let t = trim(input);
    let s = to_uppercase(t.as_str());
    let cs = chars_of(s.as_str());
    if cs.len() == 2 && is_state_code_exec(cs[0], cs[1]) {
        Ok(s)
    } else {
        Err("Choose a US state.")
    }
}

/// Gift items ship only within the contiguous US: the 48 states plus DC.
pub open spec fn contiguous_state(code: Seq<char>) -> bool {
    is_us_state(code) && !(code == seq!['A', 'K'] || code == seq!['H', 'I'])
}

/// Gift items ship only within the contiguous US: the 48 states plus DC.
pub fn is_contiguous_state(code: &str) -> (r: bool)
    ensures
        r == contiguous_state(code@),
{
    let cs = chars_of(code);
    if cs.len() != 2 {
        return false;
    }
    assert(cs@ =~= seq![cs[0], cs[1]]);
    is_state_code_exec(cs[0], cs[1]) && !((cs[0] == 'A' && cs[1] == 'K') || (cs[0] == 'H'
        && cs[1] == 'I'))
}

/// The first five characters of a ZIP code.
pub open spec fn zip5(zip: Seq<char>) -> Seq<char> {
    if zip.len() <= 5 {
        zip
    } else {
        zip.take(5)
    }
}

pub open spec fn local_zip(zip: Seq<char>, prefixes: Seq<String>, zips: Seq<String>) -> bool {
    let z5 = zip5(zip);
    ||| exists|i: int| 0 <= i < prefixes.len() && #[trigger] prefixes[i]@.is_prefix_of(z5)
    ||| exists|i: int| 0 <= i < zips.len() && #[trigger] zips[i]@ == z5
}

/// A ZIP is local if its first five digits start with any prefix or equal any listed ZIP.
pub fn is_local_zip(zip: &str, prefixes: &[String], zips: &[String]) -> (r: bool)
    ensures
        r == local_zip(zip@, prefixes@, zips@),
{
    let zc = chars_of(zip);
    let n = if zc.len() < 5 {
        zc.len()
    } else {
        5
    };
    let z5 = slice_chars(&zc, 0, n);
    assert(z5@ =~= zip5(zip@));
    let mut i: usize = 0;
    while i < prefixes.len()
        invariant
            i <= prefixes@.len(),
            z5@ == zip5(zip@),
            forall|j: int| 0 <= j < i ==> !(#[trigger] prefixes@[j]@).is_prefix_of(z5@),
        decreases prefixes@.len() - i,
    {
        let p = chars_of(prefixes[i].as_str());
        if chars_start_with(&z5, &p) {
            assert(prefixes@[i as int]@.is_prefix_of(z5@));
            return true;
        }
        i = i + 1;
    }
    let mut i: usize = 0;
    while i < zips.len()
        invariant
            i <= zips@.len(),
            z5@ == zip5(zip@),
            forall|j: int| 0 <= j < prefixes@.len() ==> !(#[trigger] prefixes@[j]@).is_prefix_of(
                z5@,
            ),
            forall|j: int| 0 <= j < i ==> #[trigger] zips@[j]@ != z5@,
        decreases zips@.len() - i,
    {
        let x = chars_of(zips[i].as_str());
        if chars_eq(&x, &z5) {
            return true;
        }
        i = i + 1;
    }
    false
}


// ---------------------------------------------------------------------------------------------
// Checkout validation
// ---------------------------------------------------------------------------------------------

#[derive(Debug)]
pub struct ValidLine {
    pub item_id: String,
    pub name: String,
    pub unit_price_cents: i64,
    pub qty: u32,
    pub fulfillment: Fulfillment,
    pub image_url: String,
}

impl Clone for ValidLine {
    fn clone(&self) -> (r: Self)
        ensures
            r == *self,
    {
        ValidLine {
            item_id: self.item_id.clone(),
            name: self.name.clone(),
            unit_price_cents: self.unit_price_cents,
            qty: self.qty,
            fulfillment: self.fulfillment,
            image_url: self.image_url.clone(),
        }
    }
}

/// A checkout request after normalization, with prices taken from the catalog.
#[derive(Debug)]
pub struct ValidatedOrder {
    pub email: String,
    pub buyer_name: String,
    pub phone: String,
    pub scout_name: Option<String>,
    pub delivery: Option<Delivery>,
    pub shipping: Option<ShipTo>,
    pub gift_message: Option<String>,
    pub lines: Vec<ValidLine>,
    pub total_cents: i64,
}

/// One field error as (field, message).
pub open spec fn error_pair(e: FieldError) -> (Seq<char>, Seq<char>) {
    (e.field@, e.message@)
}

pub open spec fn errors_view(v: Seq<FieldError>) -> Seq<(Seq<char>, Seq<char>)> {
    v.map_values(|e: FieldError| error_pair(e))
}

/// No error, or one error for `field`.
pub open spec fn one_error(field: Seq<char>, msg: Option<Seq<char>>) -> Seq<(Seq<char>, Seq<char>)> {
    match msg {
        Some(m) => seq![(field, m)],
        None => Seq::empty(),
    }
}

/// The error of a normalizer, if it failed, reported for `field`.
pub open spec fn result_error(field: Seq<char>, r: Result<Seq<char>, Seq<char>>) -> Seq<
    (Seq<char>, Seq<char>),
> {
    match r {
        Ok(_) => Seq::empty(),
        Err(m) => seq![(field, m)],
    }
}

pub open spec fn opt_view(o: Option<String>) -> Option<Seq<char>> {
    match o {
        Some(s) => Some(s@),
        None => None,
    }
}

pub open spec fn too_long_message(label: Seq<char>, max: nat) -> Seq<char> {
    label + " is too long (max "@ + decimal(max) + " characters)."@
}

pub open spec fn invalid_chars_message(label: Seq<char>) -> Seq<char> {
    label + " contains invalid characters."@
}

/// The problem with a required text field, if any; the value kept is the trimmed text.
#[verifier::opaque]
pub open spec fn text_message(input: Seq<char>, label: Seq<char>, max: nat) -> Option<Seq<char>> {
    let t = trim_spec(input);
    if t.len() == 0 {
        Some(label + " is required."@)
    } else if t.len() > max {
        Some(too_long_message(label, max))
    } else if has_control(t) {
        Some(invalid_chars_message(label))
    } else {
        None
    }
}

/// An optional text field with its whitespace collapsed; blank means absent.
#[verifier::opaque]
pub open spec fn optional_value(input: Option<Seq<char>>) -> Option<Seq<char>> {
    match input {
        None => None,
        Some(s) => {
            let t = collapse_whitespace_spec(s);
            if t.len() == 0 {
                None
            } else {
                Some(t)
            }
        },
    }
}

/// The problem with an optional text field, if any.
#[verifier::opaque]
pub open spec fn optional_message(input: Option<Seq<char>>, label: Seq<char>, max: nat) -> Option<
    Seq<char>,
> {
    match optional_value(input) {
        None => None,
        Some(t) => if t.len() > max {
            Some(too_long_message(label, max))
        } else if has_control(t) {
            Some(invalid_chars_message(label))
        } else {
            None
        },
    }
}

struct Errs(Vec<FieldError>);

impl Errs {
    fn add(&mut self, field: &str, message: String)
        ensures
            errors_view(final(self).0@) == errors_view(old(self).0@).push((field@, message@)),
    {
        let ghost before = self.0@;
        self.0.push(FieldError { field: String::from_str(field), message });
        assert(errors_view(self.0@) =~= errors_view(before).push((field@, message@)));
    }

    /// Required trimmed text with a length cap and no control characters.
    fn text(&mut self, field: &str, input: &str, label: &str, max: usize) -> (t: String)
        ensures
            t@ == trim_spec(input@),
            errors_view(final(self).0@) == errors_view(old(self).0@) + one_error(
                field@,
                text_message(input@, label@, max as nat),
            ),
    {
        reveal(text_message);
        let ghost before = errors_view(self.0@);
        let t = trim(input);
        let tc = chars_of(t.as_str());
        if tc.len() == 0 {
            self.add(field, crate::text::concat2(label, " is required."));
        } else if tc.len() > max {
            self.add(field, too_long(label, max));
        } else if any_control(&tc) {
            self.add(field, crate::text::concat2(label, " contains invalid characters."));
        }
        assert(errors_view(self.0@) =~= before + one_error(
            field@,
            text_message(input@, label@, max as nat),
        ));
        t
    }

    fn optional_text(&mut self, field: &str, input: &Option<String>, label: &str, max: usize) -> (t:
        Option<String>)
        ensures
            opt_view(t) == optional_value(opt_view(*input)),
            errors_view(final(self).0@) == errors_view(old(self).0@) + one_error(
                field@,
                optional_message(opt_view(*input), label@, max as nat),
            ),
    {
        reveal(optional_value);
        reveal(optional_message);
        let ghost before = errors_view(self.0@);
        match input {
            None => {
                assert(errors_view(self.0@) =~= before + Seq::empty());
                None
            },
            Some(s) => {
                let tc = collapse_whitespace(s.as_str());
                if tc.len() == 0 {
                    assert(errors_view(self.0@) =~= before + Seq::empty());
                    return None;
                }
                if tc.len() > max {
                    self.add(field, too_long(label, max));
                } else if any_control(&tc) {
                    self.add(field, crate::text::concat2(label, " contains invalid characters."));
                }
                assert(errors_view(self.0@) =~= before + one_error(
                    field@,
                    optional_message(opt_view(*input), label@, max as nat),
                ));
                Some(string_of(&tc))
            },
        }
    }
}

fn too_long(label: &str, max: usize) -> (m: String)
    ensures
        m@ == too_long_message(label@, max as nat),
{
    let mut m = String::from_str(label);
    m.append(" is too long (max ");
    let d = u64_decimal(max as u64);
    let ds = string_of(&d);
    m.append(ds.as_str());
    m.append(" characters).");
    m
}


/// The field name of the `i`-th cart line.
pub open spec fn line_field(i: nat) -> Seq<char> {
    "lines["@ + decimal(i) + "]"@
}

pub open spec fn known_item(items: Seq<CatalogItem>, id: Seq<char>) -> bool {
    exists|k: int| 0 <= k < items.len() && #[trigger] items[k].id@ == id
}

/// The error of one cart line: its id must be in the catalog and its quantity positive.
pub open spec fn line_error(l: CartLine, items: Seq<CatalogItem>, i: nat) -> Seq<(Seq<char>, Seq<char>)> {
    if !known_item(items, l.item_id@) {
        seq![(line_field(i), "Unknown item."@)]
    } else if l.qty == 0 {
        seq![(line_field(i), "Quantity must be at least 1."@)]
    } else {
        Seq::empty()
    }
}

/// The errors of the first `n` cart lines.
pub open spec fn line_errors(lines: Seq<CartLine>, items: Seq<CatalogItem>, n: nat) -> Seq<
    (Seq<char>, Seq<char>),
>
    decreases n,
{
    if n == 0 {
        Seq::empty()
    } else {
        line_errors(lines, items, (n - 1) as nat) + line_error(lines[n - 1], items, (n - 1) as nat)
    }
}

/// `u32::saturating_add`.
pub open spec fn sat_add(a: u32, b: u32) -> u32 {
    if a + b > u32::MAX {
        u32::MAX
    } else {
        (a + b) as u32
    }
}

/// The quantity ordered of item `id` over the first `n` cart lines: the (saturating) sum
/// of the positive quantities of the lines with that id; `None` if there are none.
pub open spec fn merged_qty(lines: Seq<CartLine>, id: Seq<char>, n: nat) -> Option<u32>
    decreases n,
{
    if n == 0 {
        None
    } else {
        let prev = merged_qty(lines, id, (n - 1) as nat);
        let l = lines[n - 1];
        if l.item_id@ == id && l.qty > 0 {
            Some(
                sat_add(
                    match prev {
                        Some(q) => q,
                        None => 0,
                    },
                    l.qty,
                ),
            )
        } else {
            prev
        }
    }
}

/// The quantity ordered of catalog item `k`.
pub open spec fn item_qty(req: CheckoutRequest, items: Seq<CatalogItem>, k: int) -> Option<u32> {
    merged_qty(req.lines@, items[k].id@, req.lines@.len())
}

/// Catalog item `k` is ordered within its limit.
pub open spec fn accepted(req: CheckoutRequest, items: Seq<CatalogItem>, k: int) -> bool {
    match item_qty(req, items, k) {
        Some(q) => q <= items[k].max_qty,
        None => false,
    }
}

pub open spec fn qty_error(req: CheckoutRequest, items: Seq<CatalogItem>, k: int) -> Seq<
    (Seq<char>, Seq<char>),
> {
    match item_qty(req, items, k) {
        Some(q) => if q > items[k].max_qty {
            seq![
                ("lines"@, "At most "@ + decimal(items[k].max_qty as nat) + " of \""@ + items[k].name@
                    + "\" per order."@),
            ]
        } else {
            Seq::empty()
        },
        None => Seq::empty(),
    }
}

/// The quantity errors of the first `n` catalog items.
pub open spec fn qty_errors(req: CheckoutRequest, items: Seq<CatalogItem>, n: nat) -> Seq<
    (Seq<char>, Seq<char>),
>
    decreases n,
{
    if n == 0 {
        Seq::empty()
    } else {
        qty_errors(req, items, (n - 1) as nat) + qty_error(req, items, n - 1)
    }
}

/// The priced lines for the first `n` catalog items, in catalog order.
pub open spec fn valid_lines(req: CheckoutRequest, items: Seq<CatalogItem>, n: nat) -> Seq<ValidLine>
    decreases n,
{
    if n == 0 {
        Seq::empty()
    } else {
        let prev = valid_lines(req, items, (n - 1) as nat);
        let it = items[n - 1];
        if accepted(req, items, n - 1) {
            prev.push(
                ValidLine {
                    item_id: it.id,
                    name: it.name,
                    unit_price_cents: it.price_cents,
                    qty: item_qty(req, items, n - 1)->0,
                    fulfillment: it.fulfillment,
                    image_url: it.image_url,
                },
            )
        } else {
            prev
        }
    }
}

/// The order total over the first `n` catalog items: catalog price times quantity.
pub open spec fn lines_total(req: CheckoutRequest, items: Seq<CatalogItem>, n: nat) -> int
    decreases n,
{
    if n == 0 {
        0
    } else {
        let prev = lines_total(req, items, (n - 1) as nat);
        if accepted(req, items, n - 1) {
            prev + items[n - 1].price_cents * item_qty(req, items, n - 1)->0
        } else {
            prev
        }
    }
}

/// Every partial product and sum of the total fits in an `i64` (the total is computed
/// with `i64` arithmetic, which panics on overflow).
pub open spec fn total_fits(req: CheckoutRequest, items: Seq<CatalogItem>) -> bool {
    forall|k: int|
        0 <= k < items.len() && #[trigger] accepted(req, items, k) ==> {
            &&& i64::MIN <= items[k].price_cents * item_qty(req, items, k)->0 <= i64::MAX
            &&& i64::MIN <= lines_total(req, items, (k + 1) as nat) <= i64::MAX
        }
}

fn item_known(items: &Vec<CatalogItem>, id: &String) -> (r: bool)
    ensures
        r == known_item(items@, id@),
{
    let idc = chars_of(id.as_str());
    let mut k: usize = 0;
    while k < items.len()
        invariant
            k <= items.len(),
            idc@ == id@,
            forall|j: int| 0 <= j < k ==> #[trigger] items@[j].id@ != id@,
        decreases items.len() - k,
    {
        let c = chars_of(items[k].id.as_str());
        if chars_eq(&c, &idc) {
            assert(items@[k as int].id@ == id@);
            return true;
        }
        k = k + 1;
    }
    false
}

fn line_field_name(i: usize) -> (f: String)
    ensures
        f@ == line_field(i as nat),
{
    let mut f = String::from_str("lines[");
    let d = u64_decimal(i as u64);
    let ds = string_of(&d);
    f.append(ds.as_str());
    f.append("]");
    f
}

impl Errs {
    fn check_cart_lines(&mut self, lines: &Vec<CartLine>, items: &Vec<CatalogItem>)
        ensures
            errors_view(final(self).0@) == errors_view(old(self).0@) + line_errors(
                lines@,
                items@,
                lines@.len(),
            ),
    {
        let ghost start = errors_view(self.0@);
        let mut i: usize = 0;
        while i < lines.len()
            invariant
                i <= lines.len(),
                errors_view(self.0@) == start + line_errors(lines@, items@, i as nat),
            decreases lines.len() - i,
        {
            let ghost before = errors_view(self.0@);
            if !item_known(items, &lines[i].item_id) {
                let f = line_field_name(i);
                self.add(f.as_str(), String::from_str("Unknown item."));
            } else if lines[i].qty == 0 {
                let f = line_field_name(i);
                self.add(f.as_str(), String::from_str("Quantity must be at least 1."));
            }
            assert(errors_view(self.0@) =~= before + line_error(lines@[i as int], items@, i as nat));
            i = i + 1;
        }
    }
}

fn merged_qty_exec(lines: &Vec<CartLine>, id: &String) -> (r: Option<u32>)
    ensures
        r == merged_qty(lines@, id@, lines@.len()),
{
    let idc = chars_of(id.as_str());
    let mut acc: Option<u32> = None;
    let mut i: usize = 0;
    while i < lines.len()
        invariant
            i <= lines.len(),
            idc@ == id@,
            acc == merged_qty(lines@, id@, i as nat),
        decreases lines.len() - i,
    {
        let c = chars_of(lines[i].item_id.as_str());
        if chars_eq(&c, &idc) && lines[i].qty > 0 {
            let base: u32 = match acc {
                Some(q) => q,
                None => 0,
            };
            acc = Some(base.saturating_add(lines[i].qty));
        }
        i = i + 1;
    }
    acc
}

impl Errs {
    /// Prices the ordered catalog items and reports the quantities over the limit.
    fn price_lines(&mut self, req: &CheckoutRequest, items: &Vec<CatalogItem>) -> (r: (
        Vec<ValidLine>,
        i64,
    ))
        requires
            total_fits(*req, items@),
        ensures
            r.0@ == valid_lines(*req, items@, items@.len()),
            r.1 == lines_total(*req, items@, items@.len()),
            errors_view(final(self).0@) == errors_view(old(self).0@) + qty_errors(
                *req,
                items@,
                items@.len(),
            ),
    {
        let ghost start = errors_view(self.0@);
        let mut lines: Vec<ValidLine> = Vec::new();
        let mut total: i64 = 0;
        let mut k: usize = 0;
        while k < items.len()
            invariant
                k <= items.len(),
                total_fits(*req, items@),
                lines@ == valid_lines(*req, items@, k as nat),
                total == lines_total(*req, items@, k as nat),
                errors_view(self.0@) == start + qty_errors(*req, items@, k as nat),
            decreases items.len() - k,
        {
            let ghost before = errors_view(self.0@);
            let item = &items[k];
            match merged_qty_exec(&req.lines, &item.id) {
                None => {
                    assert(errors_view(self.0@) =~= before + qty_error(*req, items@, k as int));
                },
                Some(qty) => {
                    if qty > item.max_qty {
                        let mut m = String::from_str("At most ");
                        let d = u64_decimal(item.max_qty as u64);
                        let ds = string_of(&d);
                        m.append(ds.as_str());
                        m.append(" of \"");
                        m.append(item.name.as_str());
                        m.append("\" per order.");
                        self.add("lines", m);
                        assert(errors_view(self.0@) =~= before + qty_error(*req, items@, k as int));
                    } else {
                        assert(accepted(*req, items@, k as int));
                        let line_total = item.price_cents * (qty as i64);
                        total = total + line_total;
                        lines.push(
                            ValidLine {
                                item_id: item.id.clone(),
                                name: item.name.clone(),
                                unit_price_cents: item.price_cents,
                                qty,
                                fulfillment: item.fulfillment,
                                image_url: item.image_url.clone(),
                            },
                        );
                        assert(errors_view(self.0@) =~= before + qty_error(*req, items@, k as int));
                    }
                },
            }
            k = k + 1;
        }
        (lines, total)
    }
}


/// Some priced line has fulfillment `f`.
pub open spec fn needs(req: CheckoutRequest, items: Seq<CatalogItem>, f: Fulfillment) -> bool {
    let ls = valid_lines(req, items, items.len());
    exists|j: int| 0 <= j < ls.len() && #[trigger] ls[j].fulfillment == f
}

pub open spec fn contact_errors(req: CheckoutRequest) -> Seq<(Seq<char>, Seq<char>)> {
    result_error("email"@, email_result(req.email@)) + one_error(
        "buyer_name"@,
        text_message(req.buyer_name@, "Name"@, 100),
    ) + result_error("phone"@, phone_result(req.phone@)) + one_error(
        "scout_name"@,
        optional_message(opt_view(req.scout_name), "Scout name"@, 100),
    )
}

// The delivery address as sent; a missing one reads as blank fields.
pub open spec fn d_street(req: CheckoutRequest) -> Seq<char> {
    match req.delivery {
        Some(d) => d.street@,
        None => Seq::empty(),
    }
}

pub open spec fn d_city(req: CheckoutRequest) -> Seq<char> {
    match req.delivery {
        Some(d) => d.city@,
        None => Seq::empty(),
    }
}

pub open spec fn d_state(req: CheckoutRequest) -> Seq<char> {
    match req.delivery {
        Some(d) => d.state@,
        None => Seq::empty(),
    }
}

pub open spec fn d_zip(req: CheckoutRequest) -> Seq<char> {
    match req.delivery {
        Some(d) => d.zip@,
        None => Seq::empty(),
    }
}

pub open spec fn d_notes(req: CheckoutRequest) -> Option<Seq<char>> {
    match req.delivery {
        Some(d) => opt_view(d.notes),
        None => None,
    }
}

pub open spec fn local_only_message() -> Seq<char> {
    "Scout delivery is only available in our local area. Use a local address or remove the delivery items."@
}

#[verifier::opaque]
pub open spec fn delivery_zip_errors(zip: Seq<char>, cat: CatalogResponse) -> Seq<
    (Seq<char>, Seq<char>),
> {
    match zip_result(zip) {
        Ok(z) => if local_zip(z, cat.local_zip_prefixes@, cat.local_zips@) {
            Seq::empty()
        } else {
            seq![("delivery.zip"@, local_only_message())]
        },
        Err(m) => seq![("delivery.zip"@, m)],
    }
}

/// The errors of the delivery address; checked only when scout-delivery items are ordered.
pub open spec fn delivery_errors(req: CheckoutRequest, cat: CatalogResponse) -> Seq<
    (Seq<char>, Seq<char>),
> {
    if !needs(req, cat.items@, Fulfillment::ScoutDelivery) {
        Seq::empty()
    } else {
        one_error("delivery.street"@, text_message(d_street(req), "Street address"@, 120))
            + one_error("delivery.city"@, text_message(d_city(req), "City"@, 60)) + result_error(
            "delivery.state"@,
            state_result(d_state(req)),
        ) + delivery_zip_errors(d_zip(req), cat) + one_error(
            "delivery.notes"@,
            optional_message(d_notes(req), "Delivery notes"@, 300),
        )
    }
}

// The shipping address as sent; a missing one reads as blank fields.
pub open spec fn s_name(req: CheckoutRequest) -> Seq<char> {
    match req.shipping {
        Some(s) => s.name@,
        None => Seq::empty(),
    }
}

pub open spec fn s_line1(req: CheckoutRequest) -> Seq<char> {
    match req.shipping {
        Some(s) => s.line1@,
        None => Seq::empty(),
    }
}

pub open spec fn s_line2(req: CheckoutRequest) -> Option<Seq<char>> {
    match req.shipping {
        Some(s) => opt_view(s.line2),
        None => None,
    }
}

pub open spec fn s_city(req: CheckoutRequest) -> Seq<char> {
    match req.shipping {
        Some(s) => s.city@,
        None => Seq::empty(),
    }
}

pub open spec fn s_state(req: CheckoutRequest) -> Seq<char> {
    match req.shipping {
        Some(s) => s.state@,
        None => Seq::empty(),
    }
}

pub open spec fn s_postal_code(req: CheckoutRequest) -> Seq<char> {
    match req.shipping {
        Some(s) => s.postal_code@,
        None => Seq::empty(),
    }
}

pub open spec fn contiguous_only_message() -> Seq<char> {
    "Gift items can only be shipped within the contiguous United States."@
}

#[verifier::opaque]
pub open spec fn shipping_state_errors(state: Seq<char>) -> Seq<(Seq<char>, Seq<char>)> {
    match state_result(state) {
        Ok(st) => if contiguous_state(st) {
            Seq::empty()
        } else {
            seq![("shipping.state"@, contiguous_only_message())]
        },
        Err(m) => seq![("shipping.state"@, m)],
    }
}

/// The errors of the shipping address and gift message.
pub open spec fn shipping_field_errors(req: CheckoutRequest) -> Seq<(Seq<char>, Seq<char>)> {
    one_error("shipping.name"@, text_message(s_name(req), "Recipient name"@, 100)) + one_error(
        "shipping.line1"@,
        text_message(s_line1(req), "Street address"@, 120),
    ) + one_error("shipping.line2"@, optional_message(s_line2(req), "Apartment or suite"@, 120))
        + one_error("shipping.city"@, text_message(s_city(req), "City"@, 60))
        + shipping_state_errors(s_state(req)) + result_error(
        "shipping.postal_code"@,
        zip_result(s_postal_code(req)),
    ) + one_error(
        "gift_message"@,
        optional_message(opt_view(req.gift_message), "Gift message"@, MAX_GIFT_MESSAGE as nat),
    )
}

/// The errors of the shipping address and gift message; checked only when direct-ship items
/// are ordered.
pub open spec fn shipping_errors(req: CheckoutRequest, cat: CatalogResponse) -> Seq<
    (Seq<char>, Seq<char>),
> {
    if !needs(req, cat.items@, Fulfillment::DirectShip) {
        Seq::empty()
    } else {
        shipping_field_errors(req)
    }
}

/// Every error of a checkout request, in the order the form reports them.
pub open spec fn checkout_errors(req: CheckoutRequest, cat: CatalogResponse) -> Seq<
    (Seq<char>, Seq<char>),
> {
    line_errors(req.lines@, cat.items@, req.lines@.len()) + qty_errors(
        req,
        cat.items@,
        cat.items@.len(),
    ) + (if req.lines@.len() == 0 {
        seq![("lines"@, "Choose at least one item."@)]
    } else {
        Seq::empty()
    }) + contact_errors(req) + delivery_errors(req, cat) + shipping_errors(req, cat)
}

pub open spec fn ok_value(r: Result<Seq<char>, Seq<char>>) -> Seq<char> {
    match r {
        Ok(v) => v,
        Err(_) => Seq::empty(),
    }
}

/// What `validate_checkout` can be called on: the total fits in an `i64`, and each ZIP
/// that is checked can be cut after its fifth byte (see `zip_input_ok`).
pub open spec fn checkout_computable(req: CheckoutRequest, cat: CatalogResponse) -> bool {
    &&& total_fits(req, cat.items@)
    &&& needs(req, cat.items@, Fulfillment::ScoutDelivery) ==> zip_input_ok(d_zip(req))
    &&& needs(req, cat.items@, Fulfillment::DirectShip) ==> zip_input_ok(s_postal_code(req))
}

/// The normalized order that a request without errors gives.
pub open spec fn order_matches(o: ValidatedOrder, req: CheckoutRequest, cat: CatalogResponse) -> bool {
    let items = cat.items@;
    &&& o.email@ == ok_value(email_result(req.email@))
    &&& o.buyer_name@ == trim_spec(req.buyer_name@)
    &&& o.phone@ == ok_value(phone_result(req.phone@))
    &&& opt_view(o.scout_name) == optional_value(opt_view(req.scout_name))
    &&& o.lines@ == valid_lines(req, items, items.len())
    &&& o.total_cents == lines_total(req, items, items.len())
    &&& if needs(req, items, Fulfillment::ScoutDelivery) {
        &&& o.delivery is Some
        &&& o.delivery->0.street@ == trim_spec(d_street(req))
        &&& o.delivery->0.city@ == trim_spec(d_city(req))
        &&& o.delivery->0.state@ == ok_value(state_result(d_state(req)))
        &&& o.delivery->0.zip@ == ok_value(zip_result(d_zip(req)))
        &&& opt_view(o.delivery->0.notes) == optional_value(d_notes(req))
    } else {
        o.delivery is None
    }
    &&& if needs(req, items, Fulfillment::DirectShip) {
        &&& o.shipping is Some
        &&& o.shipping->0.name@ == trim_spec(s_name(req))
        &&& o.shipping->0.line1@ == trim_spec(s_line1(req))
        &&& opt_view(o.shipping->0.line2) == optional_value(s_line2(req))
        &&& o.shipping->0.city@ == trim_spec(s_city(req))
        &&& o.shipping->0.state@ == ok_value(state_result(s_state(req)))
        &&& o.shipping->0.postal_code@ == ok_value(zip_result(s_postal_code(req)))
        &&& opt_view(o.gift_message) == optional_value(opt_view(req.gift_message))
    } else {
        o.shipping is None && o.gift_message is None
    }
}

fn needs_exec(lines: &Vec<ValidLine>, f: Fulfillment) -> (r: bool)
    ensures
        r == exists|j: int| 0 <= j < lines@.len() && #[trigger] lines@[j].fulfillment == f,
{
    let mut j: usize = 0;
    while j < lines.len()
        invariant
            j <= lines.len(),
            forall|i: int| 0 <= i < j ==> #[trigger] lines@[i].fulfillment != f,
        decreases lines.len() - j,
    {
        if lines[j].fulfillment == f {
            assert(lines@[j as int].fulfillment == f);
            return true;
        }
        j = j + 1;
    }
    false
}

impl Errs {
    fn contact(&mut self, req: &CheckoutRequest) -> (r: (String, String, String, Option<String>))
        ensures
            r.0@ == ok_value(email_result(req.email@)),
            r.1@ == trim_spec(req.buyer_name@),
            r.2@ == ok_value(phone_result(req.phone@)),
            opt_view(r.3) == optional_value(opt_view(req.scout_name)),
            errors_view(final(self).0@) == errors_view(old(self).0@) + contact_errors(*req),
    {
        let ghost start = errors_view(self.0@);
        let email = match normalize_email(req.email.as_str()) {
            Ok(e) => e,
            Err(m) => {
                self.add("email", String::from_str(m));
                String::new()
            },
        };
        let ghost after_email = errors_view(self.0@);
        assert(after_email =~= start + result_error("email"@, email_result(req.email@)));
        let buyer_name = self.text("buyer_name", req.buyer_name.as_str(), "Name", 100);
        let ghost after_name = errors_view(self.0@);
        let phone = match normalize_phone(req.phone.as_str()) {
            Ok(p) => p,
            Err(m) => {
                self.add("phone", String::from_str(m));
                String::new()
            },
        };
        assert(errors_view(self.0@) =~= after_name + result_error("phone"@, phone_result(req.phone@)));
        let ghost after_phone = errors_view(self.0@);
        let scout_name = self.optional_text("scout_name", &req.scout_name, "Scout name", 100);
        assert(errors_view(self.0@) =~= start + contact_errors(*req));
        (email, buyer_name, phone, scout_name)
    }

    fn delivery(&mut self, req: &CheckoutRequest, catalog: &CatalogResponse) -> (r: Delivery)
        requires
            zip_input_ok(d_zip(*req)),
        ensures
            r.street@ == trim_spec(d_street(*req)),
            r.city@ == trim_spec(d_city(*req)),
            r.state@ == ok_value(state_result(d_state(*req))),
            r.zip@ == ok_value(zip_result(d_zip(*req))),
            opt_view(r.notes) == optional_value(d_notes(*req)),
            errors_view(final(self).0@) == errors_view(old(self).0@) + one_error(
                "delivery.street"@,
                text_message(d_street(*req), "Street address"@, 120),
            ) + one_error("delivery.city"@, text_message(d_city(*req), "City"@, 60))
                + result_error("delivery.state"@, state_result(d_state(*req)))
                + delivery_zip_errors(d_zip(*req), *catalog) + one_error(
                "delivery.notes"@,
                optional_message(d_notes(*req), "Delivery notes"@, 300),
            ),
    {
        let ghost start = errors_view(self.0@);
        let d = match &req.delivery {
            Some(d) => d.clone(),
            None => Delivery::default(),
        };
        assert(d.street@ == d_street(*req) && d.city@ == d_city(*req) && d.state@ == d_state(*req)
            && d.zip@ == d_zip(*req) && opt_view(d.notes) == d_notes(*req));
        let street = self.text("delivery.street", d.street.as_str(), "Street address", 120);
        let city = self.text("delivery.city", d.city.as_str(), "City", 60);
        let ghost s1 = errors_view(self.0@);
        let state = match normalize_state(d.state.as_str()) {
            Ok(s) => s,
            Err(m) => {
                self.add("delivery.state", String::from_str(m));
                String::new()
            },
        };
        assert(errors_view(self.0@) =~= s1 + result_error("delivery.state"@, state_result(d_state(*req))));
        let ghost s2 = errors_view(self.0@);
        reveal(delivery_zip_errors);
        let zip = match normalize_zip(d.zip.as_str()) {
            Ok(z) => {
                if is_local_zip(z.as_str(), catalog.local_zip_prefixes.as_slice(), catalog.local_zips.as_slice()) {
                    z
                } else {
                    self.add(
                        "delivery.zip",
                        String::from_str(
                            "Scout delivery is only available in our local area. Use a local address or remove the delivery items.",
                        ),
                    );
                    z
                }
            },
            Err(m) => {
                self.add("delivery.zip", String::from_str(m));
                String::new()
            },
        };
        assert(errors_view(self.0@) =~= s2 + delivery_zip_errors(d_zip(*req), *catalog));
        let ghost s3 = errors_view(self.0@);
        let notes = self.optional_text("delivery.notes", &d.notes, "Delivery notes", 300);
        assert(errors_view(self.0@) =~= start + one_error(
            "delivery.street"@,
            text_message(d_street(*req), "Street address"@, 120),
        ) + one_error("delivery.city"@, text_message(d_city(*req), "City"@, 60))
            + result_error("delivery.state"@, state_result(d_state(*req)))
            + delivery_zip_errors(d_zip(*req), *catalog) + one_error(
            "delivery.notes"@,
            optional_message(d_notes(*req), "Delivery notes"@, 300),
        ));
        Delivery { street, city, state, zip, notes }
    }

    fn shipping_state(&mut self, input: &str) -> (r: String)
        ensures
            r@ == ok_value(state_result(input@)),
            errors_view(final(self).0@) == errors_view(old(self).0@) + shipping_state_errors(input@),
    {
        reveal(shipping_state_errors);
        let ghost s1 = errors_view(self.0@);
        let state = match normalize_state(input) {
            Ok(st) => {
                if is_contiguous_state(st.as_str()) {
                    st
                } else {
                    self.add(
                        "shipping.state",
                        String::from_str("Gift items can only be shipped within the contiguous United States."),
                    );
                    st
                }
            },
            Err(m) => {
                self.add("shipping.state", String::from_str(m));
                String::new()
            },
        };
        assert(errors_view(self.0@) =~= s1 + shipping_state_errors(input@));
        state
    }

    fn zip_field(&mut self, field: &str, input: &str) -> (r: String)
        requires
            zip_input_ok(input@),
        ensures
            r@ == ok_value(zip_result(input@)),
            errors_view(final(self).0@) == errors_view(old(self).0@) + result_error(field@, zip_result(input@)),
    {
        let ghost s2 = errors_view(self.0@);
        let z = match normalize_zip(input) {
            Ok(z) => z,
            Err(m) => {
                self.add(field, String::from_str(m));
                String::new()
            },
        };
        assert(errors_view(self.0@) =~= s2 + result_error(field@, zip_result(input@)));
        z
    }

    fn shipping(&mut self, req: &CheckoutRequest) -> (r: (ShipTo, Option<String>))
        requires
            zip_input_ok(s_postal_code(*req)),
        ensures
            r.0.name@ == trim_spec(s_name(*req)),
            r.0.line1@ == trim_spec(s_line1(*req)),
            opt_view(r.0.line2) == optional_value(s_line2(*req)),
            r.0.city@ == trim_spec(s_city(*req)),
            r.0.state@ == ok_value(state_result(s_state(*req))),
            r.0.postal_code@ == ok_value(zip_result(s_postal_code(*req))),
            opt_view(r.1) == optional_value(opt_view(req.gift_message)),
            errors_view(final(self).0@) == errors_view(old(self).0@) + shipping_field_errors(*req),
    {
        let ghost start = errors_view(self.0@);
        let s = match &req.shipping {
            Some(s) => s.clone(),
            None => ShipTo::default(),
        };
        assert(s.name@ == s_name(*req) && s.line1@ == s_line1(*req) && opt_view(s.line2) == s_line2(*req)
            && s.city@ == s_city(*req) && s.state@ == s_state(*req) && s.postal_code@ == s_postal_code(*req));
        let name = self.text("shipping.name", s.name.as_str(), "Recipient name", 100);
        let ghost p1 = one_error("shipping.name"@, text_message(s_name(*req), "Recipient name"@, 100));
        let line1 = self.text("shipping.line1", s.line1.as_str(), "Street address", 120);
        let ghost p2 = one_error("shipping.line1"@, text_message(s_line1(*req), "Street address"@, 120));
        proof { lemma_concat_associative(start, p1, p2); }
        let line2 = self.optional_text("shipping.line2", &s.line2, "Apartment or suite", 120);
        let ghost p3 = one_error("shipping.line2"@, optional_message(s_line2(*req), "Apartment or suite"@, 120));
        proof { lemma_concat_associative(start, p1 + p2, p3); }
        let city = self.text("shipping.city", s.city.as_str(), "City", 60);
        let ghost p4 = one_error("shipping.city"@, text_message(s_city(*req), "City"@, 60));
        proof { lemma_concat_associative(start, p1 + p2 + p3, p4); }
        let state = self.shipping_state(s.state.as_str());
        let ghost p5 = shipping_state_errors(s_state(*req));
        proof { lemma_concat_associative(start, p1 + p2 + p3 + p4, p5); }
        let postal_code = self.zip_field("shipping.postal_code", s.postal_code.as_str());
        let ghost p6 = result_error("shipping.postal_code"@, zip_result(s_postal_code(*req)));
        proof { lemma_concat_associative(start, p1 + p2 + p3 + p4 + p5, p6); }
        let gift = self.optional_text("gift_message", &req.gift_message, "Gift message", MAX_GIFT_MESSAGE);
        let ghost p7 = one_error(
            "gift_message"@,
            optional_message(opt_view(req.gift_message), "Gift message"@, MAX_GIFT_MESSAGE as nat),
        );
        proof { lemma_concat_associative(start, p1 + p2 + p3 + p4 + p5 + p6, p7); }
        (ShipTo { name, line1, line2, city, state, postal_code }, gift)
    }
}

/// Validate and normalize a checkout request against the catalog.
/// Prices always come from the catalog, never from the request.
pub fn validate_checkout(req: &CheckoutRequest, catalog: &CatalogResponse) -> (r: Result<
    ValidatedOrder,
    Vec<FieldError>,
>)
    requires
        checkout_computable(*req, *catalog),
    ensures
        match r {
            Ok(o) => checkout_errors(*req, *catalog).len() == 0 && order_matches(o, *req, *catalog),
            Err(es) => errors_view(es@) == checkout_errors(*req, *catalog) && es@.len() > 0,
        },
{
    let mut errs = Errs(Vec::new());
    assert(errors_view(errs.0@) =~= Seq::empty());
    errs.check_cart_lines(&req.lines, &catalog.items);
    let (lines, total) = errs.price_lines(req, &catalog.items);
    if req.lines.len() == 0 {
        errs.add("lines", String::from_str("Choose at least one item."));
    }
    let needs_delivery = needs_exec(&lines, Fulfillment::ScoutDelivery);
    let needs_shipping = needs_exec(&lines, Fulfillment::DirectShip);
    let ghost before_contact = errors_view(errs.0@);
    let (email, buyer_name, phone, scout_name) = errs.contact(req);
    let ghost before_delivery = errors_view(errs.0@);
    let delivery = if needs_delivery {
        Some(errs.delivery(req, catalog))
    } else {
        None
    };
    assert(errors_view(errs.0@) =~= before_delivery + delivery_errors(*req, *catalog));
    let ghost before_shipping = errors_view(errs.0@);
    let (shipping, gift_message) = if needs_shipping {
        let (s, g) = errs.shipping(req);
        (Some(s), g)
    } else {
        (None, None)
    };
    assert(errors_view(errs.0@) =~= before_shipping + shipping_errors(*req, *catalog));
    assert(errors_view(errs.0@) =~= checkout_errors(*req, *catalog));
    if errs.0.len() == 0 {
        Ok(
            ValidatedOrder {
                email,
                buyer_name,
                phone,
                scout_name,
                delivery,
                shipping,
                gift_message,
                lines,
                total_cents: total,
            },
        )
    } else {
        Err(errs.0)
    }
}

fn totals_fit(req: &CheckoutRequest, items: &Vec<CatalogItem>) -> (r: bool)
    ensures
        r == total_fits(*req, items@),
{
    let mut total: i128 = 0;
    let mut k: usize = 0;
    while k < items.len()
        invariant
            k <= items.len(),
            total == lines_total(*req, items@, k as nat),
            i64::MIN <= total <= i64::MAX,
            forall|j: int|
                0 <= j < k && #[trigger] accepted(*req, items@, j) ==> {
                    &&& i64::MIN <= items@[j].price_cents * item_qty(*req, items@, j)->0 <= i64::MAX
                    &&& i64::MIN <= lines_total(*req, items@, (j + 1) as nat) <= i64::MAX
                },
        decreases items.len() - k,
    {
        match merged_qty_exec(&req.lines, &items[k].id) {
            Some(q) => {
                if q <= items[k].max_qty {
                    assert(accepted(*req, items@, k as int));
                    let price = items[k].price_cents as i128;
                    let qq = q as i128;
                    assert(-0x8000_0000_0000_0000 * 0x1_0000_0000 <= price * qq <= 0x8000_0000_0000_0000 * 0x1_0000_0000)
                        by (nonlinear_arith)
                        requires
                            -0x8000_0000_0000_0000 <= price <= 0x7fff_ffff_ffff_ffff,
                            0 <= qq <= 0xffff_ffff,
                    {
                        assert(price * qq <= 0x7fff_ffff_ffff_ffff * qq);
                        assert(price * qq >= -0x8000_0000_0000_0000 * qq);
                    }
                    let p = price * qq;
                    if p < i64::MIN as i128 || p > i64::MAX as i128 {
                        return false;
                    }
                    let t = total + p;
                    assert(t == lines_total(*req, items@, (k + 1) as nat));
                    if t < i64::MIN as i128 || t > i64::MAX as i128 {
                        return false;
                    }
                    total = t;
                }
            },
            None => {},
        }
        k = k + 1;
    }
    true
}

/// Whether `validate_checkout` can be called: the total fits in an `i64` and the ZIP
/// fields that will be checked can be cut where the check cuts them.
pub fn checkout_is_computable(req: &CheckoutRequest, catalog: &CatalogResponse) -> (r: bool)
    ensures
        r == checkout_computable(*req, *catalog),
{
    if !totals_fit(req, &catalog.items) {
        return false;
    }
    let mut scratch = Errs(Vec::new());
    let (lines, _) = scratch.price_lines(req, &catalog.items);
    let needs_delivery = needs_exec(&lines, Fulfillment::ScoutDelivery);
    let needs_shipping = needs_exec(&lines, Fulfillment::DirectShip);
    let delivery_ok = match &req.delivery {
        Some(d) => zip_input_checkable(d.zip.as_str()),
        None => zip_input_checkable(""),
    };
    let shipping_ok = match &req.shipping {
        Some(s) => zip_input_checkable(s.postal_code.as_str()),
        None => zip_input_checkable(""),
    };
    proof {
        reveal_strlit("");
    }
    (!needs_delivery || delivery_ok) && (!needs_shipping || shipping_ok)
}

/// Checking a request depends on the catalog's items and local delivery area only.
pub proof fn lemma_same_catalog(req: CheckoutRequest, a: CatalogResponse, b: CatalogResponse)
    requires
        a.items@ == b.items@,
        a.local_zip_prefixes@ == b.local_zip_prefixes@,
        a.local_zips@ == b.local_zips@,
    ensures
        checkout_errors(req, a) == checkout_errors(req, b),
        checkout_computable(req, a) == checkout_computable(req, b),
        forall|o: ValidatedOrder| order_matches(o, req, a) == order_matches(o, req, b),
{
    reveal(delivery_zip_errors);
}

/// The amount charged for lines: unit price times quantity, summed.
pub open spec fn valid_lines_sum(ls: Seq<ValidLine>) -> int
    decreases ls.len(),
{
    if ls.len() == 0 {
        0
    } else {
        valid_lines_sum(ls.drop_last()) + ls.last().unit_price_cents * ls.last().qty
    }
}

/// The order's total is what its lines add up to.
pub proof fn lemma_total_is_sum_of_lines(req: CheckoutRequest, items: Seq<CatalogItem>, n: nat)
    requires
        n <= items.len(),
    ensures
        valid_lines_sum(valid_lines(req, items, n)) == lines_total(req, items, n),
    decreases n,
{
    if n > 0 {
        lemma_total_is_sum_of_lines(req, items, (n - 1) as nat);
        let prev = valid_lines(req, items, (n - 1) as nat);
        if accepted(req, items, n - 1) {
            let ls = valid_lines(req, items, n);
            assert(ls.drop_last() =~= prev);
        }
    }
}

/// The gift message of an accepted order has at most 20 characters and no control
/// characters (and there is none without direct-ship items).
pub proof fn lemma_accepted_gift_message(req: CheckoutRequest, cat: CatalogResponse, o: ValidatedOrder)
    requires
        checkout_errors(req, cat).len() == 0,
        order_matches(o, req, cat),
    ensures
        o.gift_message matches Some(g) ==> {
            &&& needs(req, cat.items@, Fulfillment::DirectShip)
            &&& g@.len() <= MAX_GIFT_MESSAGE
            &&& !has_control(g@)
        },
{
    reveal(optional_message);
    reveal(optional_value);
    let se = shipping_errors(req, cat);
    assert(se.len() == 0);
    if needs(req, cat.items@, Fulfillment::DirectShip) {
        let gift = one_error(
            "gift_message"@,
            optional_message(opt_view(req.gift_message), "Gift message"@, MAX_GIFT_MESSAGE as nat),
        );
        assert(gift.len() == 0);
        assert(optional_message(opt_view(req.gift_message), "Gift message"@, MAX_GIFT_MESSAGE as nat) is None);
    }
}

/// The delivery ZIP of an accepted order is in the local delivery area.
pub proof fn lemma_accepted_delivery_is_local(req: CheckoutRequest, cat: CatalogResponse, o: ValidatedOrder)
    requires
        checkout_errors(req, cat).len() == 0,
        order_matches(o, req, cat),
    ensures
        o.delivery matches Some(d) ==> local_zip(d.zip@, cat.local_zip_prefixes@, cat.local_zips@),
{
    reveal(delivery_zip_errors);
    let de = delivery_errors(req, cat);
    assert(de.len() == 0);
    if needs(req, cat.items@, Fulfillment::ScoutDelivery) {
        assert(delivery_zip_errors(d_zip(req), cat).len() == 0);
    }
}

/// The shipping state of an accepted order is in the contiguous United States.
pub proof fn lemma_accepted_shipping_is_contiguous(req: CheckoutRequest, cat: CatalogResponse, o: ValidatedOrder)
    requires
        checkout_errors(req, cat).len() == 0,
        order_matches(o, req, cat),
    ensures
        o.shipping matches Some(s) ==> contiguous_state(s.state@),
{
    reveal(shipping_state_errors);
    let se = shipping_errors(req, cat);
    assert(se.len() == 0);
    if needs(req, cat.items@, Fulfillment::DirectShip) {
        assert(shipping_state_errors(s_state(req)).len() == 0);
    }
}

proof fn lemma_digits_of_add(a: Seq<char>, b: Seq<char>)
    ensures
        digits_of(a + b) == digits_of(a) + digits_of(b),
    decreases b.len(),
{
    reveal_with_fuel(Seq::<_>::filter, 1);
    if b.len() == 0 {
        assert(a + b =~= a);
        assert(digits_of(a) + digits_of(b) =~= digits_of(a));
    } else {
        lemma_digits_of_add(a, b.drop_last());
        assert((a + b).drop_last() =~= a + b.drop_last());
        assert((a + b).last() == b.last());
        if is_digit(b.last()) {
            assert(digits_of(a) + digits_of(b) =~= (digits_of(a) + digits_of(b.drop_last())).push(
                b.last(),
            ));
        }
    }
}

proof fn lemma_digits_of_digits(s: Seq<char>)
    requires
        all_digit_chars(s),
    ensures
        digits_of(s) == s,
    decreases s.len(),
{
    reveal_with_fuel(Seq::<_>::filter, 1);
    if s.len() > 0 {
        assert(all_digit_chars(s.drop_last())) by {
            assert forall|i: int| 0 <= i < s.drop_last().len() implies is_digit(
                #[trigger] s.drop_last()[i],
            ) by {
                assert(s.drop_last()[i] == s[i]);
            }
        }
        lemma_digits_of_digits(s.drop_last());
        assert(is_digit(s[s.len() - 1]));
        assert(s.drop_last().push(s.last()) =~= s);
    }
}

proof fn lemma_digits_of_are_digits(s: Seq<char>)
    ensures
        all_digit_chars(digits_of(s)),
    decreases s.len(),
{
    reveal_with_fuel(Seq::<_>::filter, 1);
    if s.len() > 0 {
        lemma_digits_of_are_digits(s.drop_last());
        let d = digits_of(s.drop_last());
        if is_digit(s.last()) {
            assert forall|i: int| 0 <= i < d.push(s.last()).len() implies is_digit(
                #[trigger] d.push(s.last())[i],
            ) by {
                if i < d.len() {
                    assert(d.push(s.last())[i] == d[i]);
                }
            }
        }
    }
}

/// A normalized phone number normalizes to itself.
pub proof fn lemma_phone_normal_form(input: Seq<char>)
    requires
        phone_result(input) is Ok,
    ensures
        phone_result(phone_result(input)->Ok_0) == phone_result(input),
{
    reveal(phone_result);
    let d = phone_digits(input);
    lemma_digits_of_are_digits(input);
    assert(all_digit_chars(d)) by {
        let all = digits_of(input);
        if all.len() == 11 && all[0] == '1' {
            assert forall|i: int| 0 <= i < d.len() implies is_digit(#[trigger] d[i]) by {
                assert(d[i] == all[i + 1]);
            }
        }
    }
    let a = d.subrange(0, 3);
    let b = d.subrange(3, 6);
    let c = d.subrange(6, 10);
    let dash = seq!['-'];
    let p = a + dash + b + dash + c;
    assert(all_digit_chars(a) && all_digit_chars(b) && all_digit_chars(c)) by {
        assert forall|i: int| 0 <= i < a.len() implies is_digit(#[trigger] a[i]) by {
            assert(a[i] == d[i]);
        }
        assert forall|i: int| 0 <= i < b.len() implies is_digit(#[trigger] b[i]) by {
            assert(b[i] == d[i + 3]);
        }
        assert forall|i: int| 0 <= i < c.len() implies is_digit(#[trigger] c[i]) by {
            assert(c[i] == d[i + 6]);
        }
    }
    reveal_with_fuel(Seq::<_>::filter, 2);
    assert(digits_of(dash) =~= Seq::<char>::empty()) by {
        assert(dash.drop_last() =~= Seq::<char>::empty());
    }
    lemma_digits_of_digits(a);
    lemma_digits_of_digits(b);
    lemma_digits_of_digits(c);
    lemma_digits_of_add(a, dash);
    lemma_digits_of_add(a + dash, b);
    lemma_digits_of_add(a + dash + b, dash);
    lemma_digits_of_add(a + dash + b + dash, c);
    assert(digits_of(p) =~= d);
    assert(phone_digits(p) == d);
    assert(is_digit(p[0]));
    assert(is_digit(p[p.len() - 1]));
    assert(trim_start_spec(p) == p);
    assert(trim_end_spec(p) == p);
    assert(p.subrange(0, 3) =~= a);
}

/// An ASCII digit.
pub open spec fn ascii_digit(c: char) -> bool {
    '0' <= c && c <= '9'
}

/// `ddd-ddd-dddd` whose first and fourth digits are 2 to 9.
pub open spec fn us_phone_shape(p: Seq<char>) -> bool {
    &&& p.len() == 12
    &&& p[3] == '-'
    &&& p[7] == '-'
    &&& forall|i: int| 0 <= i < 12 && i != 3 && i != 7 ==> ascii_digit(#[trigger] p[i])
    &&& '2' <= p[0] && p[0] <= '9'
    &&& '2' <= p[4] && p[4] <= '9'
}

/// The digits of `d`, ten of them, written `ddd-ddd-dddd`, have those digits back.
proof fn lemma_phone_format(d: Seq<char>)
    requires
        d.len() == 10,
        all_digit_chars(d),
    ensures
        digits_of(d.subrange(0, 3) + seq!['-'] + d.subrange(3, 6) + seq!['-'] + d.subrange(6, 10))
            == d,
{
    let a = d.subrange(0, 3);
    let b = d.subrange(3, 6);
    let c = d.subrange(6, 10);
    let dash = seq!['-'];
    assert(all_digit_chars(a) && all_digit_chars(b) && all_digit_chars(c)) by {
        assert forall|i: int| 0 <= i < a.len() implies is_digit(#[trigger] a[i]) by {
            assert(a[i] == d[i]);
        }
        assert forall|i: int| 0 <= i < b.len() implies is_digit(#[trigger] b[i]) by {
            assert(b[i] == d[i + 3]);
        }
        assert forall|i: int| 0 <= i < c.len() implies is_digit(#[trigger] c[i]) by {
            assert(c[i] == d[i + 6]);
        }
    }
    reveal_with_fuel(Seq::<_>::filter, 2);
    assert(digits_of(dash) =~= Seq::<char>::empty()) by {
        assert(dash.drop_last() =~= Seq::<char>::empty());
    }
    lemma_digits_of_digits(a);
    lemma_digits_of_digits(b);
    lemma_digits_of_digits(c);
    lemma_digits_of_add(a, dash);
    lemma_digits_of_add(a + dash, b);
    lemma_digits_of_add(a + dash + b, dash);
    lemma_digits_of_add(a + dash + b + dash, c);
    assert(digits_of(a + dash + b + dash + c) =~= d);
}

/// What `normalize_phone` answers. A blank input is asked for; an accepted number is written
/// `ddd-ddd-dddd`, with first and fourth digits 2 to 9, and has the input's digits (less a
/// leading country code `1`); any other refusal asks for a 10-digit number.
pub proof fn lemma_phone_answers(input: Seq<char>)
    ensures
        trim_spec(input).len() == 0 ==> phone_result(input) == Err::<Seq<char>, Seq<char>>(
            "Enter a phone number."@,
        ),
        trim_spec(input).len() > 0 && phone_result(input) is Err ==> phone_result(input) == Err::<
            Seq<char>,
            Seq<char>,
        >("Enter a 10-digit US phone number."@),
        phone_result(input) matches Ok(p) ==> us_phone_shape(p) && (digits_of(input) == digits_of(p)
            || digits_of(input) == seq!['1'] + digits_of(p)),
{
    reveal(phone_result);
    if phone_result(input) is Ok {
        let all = digits_of(input);
        let d = phone_digits(input);
        lemma_digits_of_are_digits(input);
        assert(all_digit_chars(d)) by {
            if all.len() == 11 && all[0] == '1' {
                assert forall|i: int| 0 <= i < d.len() implies is_digit(#[trigger] d[i]) by {
                    assert(d[i] == all[i + 1]);
                }
            }
        }
        lemma_phone_format(d);
        let p = d.subrange(0, 3) + seq!['-'] + d.subrange(3, 6) + seq!['-'] + d.subrange(6, 10);
        assert forall|i: int| 0 <= i < 12 && i != 3 && i != 7 implies ascii_digit(#[trigger] p[i]) by {
            if i < 3 {
                assert(p[i] == d[i]);
            } else if i < 7 {
                assert(p[i] == d[i - 1]);
            } else {
                assert(p[i] == d[i - 2]);
            }
            assert(is_digit(d[if i < 3 { i } else if i < 7 { i - 1 } else { i - 2 }]));
        }
        assert(p[0] == d[0] && p[4] == d[3]);
        assert(is_digit(d[0]) && is_digit(d[3]));
        if all.len() == 11 && all[0] == '1' {
            assert(all =~= seq!['1'] + d);
        }
    }
}

/// `normalize_phone` accepts every number written `ddd-ddd-dddd` with first and fourth digits
/// 2 to 9, as it is, and gives the same answer to every non-blank input with the same digits,
/// with or without a leading country code `1` (so `(216) 555-0142` and `+1 216 555 0142`
/// both give `216-555-0142`).
pub proof fn lemma_phone_accepts(p: Seq<char>, input: Seq<char>)
    requires
        us_phone_shape(p),
        trim_spec(input).len() > 0,
        digits_of(input) == digits_of(p) || digits_of(input) == seq!['1'] + digits_of(p),
    ensures
        phone_result(input) == Ok::<Seq<char>, Seq<char>>(p),
{
    reveal(phone_result);
    let a = p.subrange(0, 3);
    let b = p.subrange(4, 7);
    let c = p.subrange(8, 12);
    let dash = seq!['-'];
    assert(p =~= a + dash + b + dash + c);
    assert(all_digit_chars(a) && all_digit_chars(b) && all_digit_chars(c)) by {
        assert forall|i: int| 0 <= i < a.len() implies is_digit(#[trigger] a[i]) by {
            assert(a[i] == p[i] && ascii_digit(p[i]));
        }
        assert forall|i: int| 0 <= i < b.len() implies is_digit(#[trigger] b[i]) by {
            assert(b[i] == p[i + 4] && ascii_digit(p[i + 4]));
        }
        assert forall|i: int| 0 <= i < c.len() implies is_digit(#[trigger] c[i]) by {
            assert(c[i] == p[i + 8] && ascii_digit(p[i + 8]));
        }
    }
    reveal_with_fuel(Seq::<_>::filter, 2);
    assert(digits_of(dash) =~= Seq::<char>::empty()) by {
        assert(dash.drop_last() =~= Seq::<char>::empty());
    }
    lemma_digits_of_digits(a);
    lemma_digits_of_digits(b);
    lemma_digits_of_digits(c);
    lemma_digits_of_add(a, dash);
    lemma_digits_of_add(a + dash, b);
    lemma_digits_of_add(a + dash + b, dash);
    lemma_digits_of_add(a + dash + b + dash, c);
    let d = a + b + c;
    assert(digits_of(p) =~= d);
    if digits_of(input) == seq!['1'] + d {
        assert((seq!['1'] + d).drop_first() =~= d);
    }
    assert(phone_digits(input) == d);
    assert(d[0] == p[0] && d[3] == p[4]);
    assert(d.subrange(0, 3) =~= a && d.subrange(3, 6) =~= b && d.subrange(6, 10) =~= c);
}

/// A ZIP code: five digits, or five digits, `-` and four more.
pub open spec fn zip_shape(z: Seq<char>) -> bool {
    ||| z.len() == 5 && forall|i: int| 0 <= i < 5 ==> ascii_digit(#[trigger] z[i])
    ||| z.len() == 10 && z[5] == '-' && forall|i: int| 0 <= i < 10 && i != 5 ==> ascii_digit(#[trigger] z[i])
}

/// `normalize_zip` accepts exactly the inputs that are a ZIP code once trimmed, and gives
/// that code; it refuses every other with the same message.
pub proof fn lemma_zip_answers(input: Seq<char>)
    ensures
        zip_shape(trim_spec(input)) ==> zip_result(input) == Ok::<Seq<char>, Seq<char>>(trim_spec(input)),
        !zip_shape(trim_spec(input)) ==> zip_result(input) == Err::<Seq<char>, Seq<char>>(
            "Enter a 5-digit ZIP code."@,
        ),
{
    reveal(zip_result);
    let z = trim_spec(input);
    if z.len() == 10 {
        assert(zip_shape(z) <==> zip_shape_ok(z)) by {
            if zip_shape(z) {
                assert forall|i: int| 0 <= i < z.take(5).len() implies is_digit(#[trigger] z.take(5)[i]) by {
                    assert(z.take(5)[i] == z[i] && ascii_digit(z[i]));
                }
                assert forall|i: int| 0 <= i < z.skip(6).len() implies is_digit(#[trigger] z.skip(6)[i]) by {
                    assert(z.skip(6)[i] == z[i + 6] && ascii_digit(z[i + 6]));
                }
            }
            if zip_shape_ok(z) {
                assert forall|i: int| 0 <= i < 10 && i != 5 implies ascii_digit(#[trigger] z[i]) by {
                    if i < 5 {
                        assert(z.take(5)[i] == z[i]);
                    } else {
                        assert(z.skip(6)[i - 6] == z[i]);
                    }
                }
            }
        }
    }
}

/// Whatever `normalize_email` accepts is a valid address, built from a good local part and
/// good labels; an input that is blank once trimmed is asked for, and every other refusal
/// says the address does not look valid (or, should the case mapping leave nothing, asks
/// for it).
pub proof fn lemma_email_answers(input: Seq<char>)
    ensures
        email_result(input) matches Ok(e) ==> email_ok(e) && (exists|l: Seq<char>, labels: Seq<Seq<char>>|
            good_local(l) && good_domain(labels) && e == #[trigger] address(l, labels) && e.len()
                <= 254),
        trim_spec(input).len() == 0 ==> email_result(input) == Err::<Seq<char>, Seq<char>>(
            "Enter your email address."@,
        ),
        email_result(input) is Err && trim_spec(input).len() > 0 ==> email_result(input) == Err::<
            Seq<char>,
            Seq<char>,
        >("Enter your email address."@) || email_result(input) == Err::<Seq<char>, Seq<char>>(
            "That doesn't look like a valid email address."@,
        ),
{
    reveal(email_result);
    if email_result(input) is Ok {
        lemma_good_addresses_only(email_candidate(input));
    }
    if trim_spec(input).len() == 0 {
        assert(is_ascii_text(trim_spec(input)));
        assert(ascii_lower(trim_spec(input)) =~= trim_spec(input));
    }
}

/// Gift items ship to the 48 contiguous states and DC: a code is contiguous exactly when it
/// is one of the 51 USPS codes other than Alaska's and Hawaii's.
pub proof fn lemma_contiguous_codes()
    ensures
        forall|c: Seq<char>|
            #[trigger] contiguous_state(c) <==> usps_codes().contains(c) && c != seq!['A', 'K'] && c
                != seq!['H', 'I'],
{
    lemma_state_codes();
    assert forall|c: Seq<char>| #[trigger] contiguous_state(c) <==> usps_codes().contains(c) && c
        != seq!['A', 'K'] && c != seq!['H', 'I'] by {
        assert(is_us_state(c) <==> usps_codes().contains(c));
    }
}

} // verus!
