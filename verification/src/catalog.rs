//! The catalog: the items on sale, the local delivery area and the cutoff, checked once at
//! startup and immutable afterwards.

use vstd::prelude::*;
use vstd::string::StringExecFns;

use crate::api::{CatalogItem, CatalogResponse, Fulfillment, Support};
use crate::text::{
    all_digit_chars, all_digits, chars_of, debug_quote, debug_quoted, decimal, is_digit,
    join_chars, join_spec, string_of, trim_chars, trim_spec, u64_decimal, views_of,
};
use vstd::seq_lib::lemma_concat_associative;
use crate::time::{not_after, parse_rfc3339, rfc3339_parsed, Timestamp};

verus! {

/// The catalog file as read, before any check.
#[derive(Debug)]
pub struct RawCatalog {
    pub closes_at: String,
    pub delivery_note: String,
    pub shipping_note: String,
    pub support: Support,
    pub fulfillment: RawFulfillment,
    pub items: Vec<RawItem>,
}

#[derive(Debug)]
pub struct RawFulfillment {
    pub local_zip_prefixes: Vec<String>,
    pub local_zips: Vec<String>,
}

#[derive(Debug)]
pub struct RawItem {
    pub id: String,
    pub name: String,
    pub description: String,
    pub price_cents: i64,
    pub fulfillment: Fulfillment,
    pub max_qty: Option<u32>,
    pub image: String,
    pub image_alt: String,
}

pub const DEFAULT_MAX_QTY: u32 = 20;

pub open spec fn strings_view(v: Seq<String>) -> Seq<Seq<char>> {
    v.map_values(|s: String| s@)
}

/// One message when `c` holds.
pub open spec fn when(c: bool, msg: Seq<char>) -> Seq<Seq<char>> {
    if c {
        seq![msg]
    } else {
        Seq::empty()
    }
}

/// The problem with `closes_at`, given what parsing it gave.
pub open spec fn closes_at_problems(s: Seq<char>, parsed: Result<(i64, u32, Seq<char>), Seq<char>>) -> Seq<
    Seq<char>,
> {
    match parsed {
        Ok(_) => Seq::empty(),
        Err(e) => seq![
            "closes_at "@ + debug_quoted(s) + " is not RFC 3339 with an offset: "@ + e,
        ],
    }
}

/// A ZIP prefix is one to five digits.
pub open spec fn prefix_ok(p: Seq<char>) -> bool {
    1 <= p.len() <= 5 && all_digit_chars(p)
}

pub open spec fn prefix_problems(ps: Seq<Seq<char>>) -> Seq<Seq<char>>
    decreases ps.len(),
{
    if ps.len() == 0 {
        Seq::empty()
    } else {
        prefix_problems(ps.drop_last()) + when(
            !prefix_ok(ps.last()),
            "local_zip_prefixes entry "@ + debug_quoted(ps.last()) + " must be 1-5 digits"@,
        )
    }
}

/// A local ZIP is exactly five digits.
pub open spec fn zip_ok(z: Seq<char>) -> bool {
    z.len() == 5 && all_digit_chars(z)
}

pub open spec fn zip_problems(zs: Seq<Seq<char>>) -> Seq<Seq<char>>
    decreases zs.len(),
{
    if zs.len() == 0 {
        Seq::empty()
    } else {
        zip_problems(zs.drop_last()) + when(
            !zip_ok(zs.last()),
            "local_zips entry "@ + debug_quoted(zs.last()) + " must be exactly 5 digits"@,
        )
    }
}

pub open spec fn has_delivery_item(items: Seq<RawItem>) -> bool {
    exists|i: int| 0 <= i < items.len() && items[i].fulfillment == Fulfillment::ScoutDelivery
}

pub open spec fn is_id_char(c: char) -> bool {
    ('a' <= c && c <= 'z') || is_digit(c) || c == '-'
}

/// An item id is non-empty and made of lowercase letters, digits and `-`.
pub open spec fn id_ok(id: Seq<char>) -> bool {
    id.len() > 0 && forall|i: int| 0 <= i < id.len() ==> is_id_char(#[trigger] id[i])
}

pub open spec fn has_dot_dot(s: Seq<char>) -> bool {
    exists|i: int| 0 <= i < s.len() - 1 && s[i] == '.' && #[trigger] s[i + 1] == '.'
}

/// A plain file name: not empty, no `/`, no `..`, not starting with `.`.
pub open spec fn image_name_ok(s: Seq<char>) -> bool {
    s.len() > 0 && !s.contains('/') && !has_dot_dot(s) && s[0] != '.'
}

pub open spec fn max_qty_of(it: RawItem) -> u32 {
    match it.max_qty {
        Some(q) => q,
        None => DEFAULT_MAX_QTY,
    }
}

pub open spec fn raw_ids(items: Seq<RawItem>) -> Seq<Seq<char>> {
    items.map_values(|it: RawItem| it.id@)
}

/// Whether the image of item `i` was found (missing answers count as not found).
pub open spec fn image_found(image_exists: Seq<bool>, i: int) -> bool {
    0 <= i < image_exists.len() && image_exists[i]
}

pub open spec fn item_who(it: RawItem) -> Seq<char> {
    "item "@ + debug_quoted(it.id@)
}

pub open spec fn id_problem(it: RawItem) -> Seq<Seq<char>> {
    when(!id_ok(it.id@), item_who(it) + ": id must be lowercase letters, digits and '-'"@)
}

pub open spec fn duplicate_problem(it: RawItem, earlier: Seq<Seq<char>>) -> Seq<Seq<char>> {
    when(earlier.contains(it.id@), item_who(it) + ": duplicate id"@)
}

pub open spec fn name_problem(it: RawItem) -> Seq<Seq<char>> {
    when(trim_spec(it.name@).len() == 0, item_who(it) + ": name is empty"@)
}

pub open spec fn price_problem(it: RawItem) -> Seq<Seq<char>> {
    when(it.price_cents <= 0, item_who(it) + ": price_cents must be > 0"@)
}

pub open spec fn max_qty_problem(it: RawItem) -> Seq<Seq<char>> {
    when(!(1 <= max_qty_of(it) <= 100), item_who(it) + ": max_qty must be 1-100"@)
}

pub open spec fn image_problem(it: RawItem, found: bool) -> Seq<Seq<char>> {
    if !image_name_ok(it.image@) {
        seq![item_who(it) + ": image must be a plain filename in static/images/"@]
    } else {
        when(
            !found,
            item_who(it) + ": image file "@ + debug_quoted(it.image@) + " not found in static/images/"@,
        )
    }
}

pub open spec fn image_alt_problem(it: RawItem) -> Seq<Seq<char>> {
    when(trim_spec(it.image_alt@).len() == 0, item_who(it) + ": image_alt is required"@)
}

/// The problems of one item, in the order they are checked; `earlier` are the ids of the
/// items before it.
#[verifier::opaque]
pub open spec fn item_problems(it: RawItem, earlier: Seq<Seq<char>>, found: bool) -> Seq<Seq<char>> {
    id_problem(it) + duplicate_problem(it, earlier) + name_problem(it) + price_problem(it)
        + max_qty_problem(it) + image_problem(it, found) + image_alt_problem(it)
}

pub open spec fn items_problems(items: Seq<RawItem>, image_exists: Seq<bool>) -> Seq<Seq<char>>
    decreases items.len(),
{
    if items.len() == 0 {
        Seq::empty()
    } else {
        let k = items.len() - 1;
        items_problems(items.drop_last(), image_exists) + item_problems(
            items.last(),
            raw_ids(items.drop_last()),
            image_found(image_exists, k),
        )
    }
}

/// Every problem of the catalog, in the order they are reported, given what parsing
/// `closes_at` gave. `image_exists[i]` says whether the image of item `i` exists.
pub open spec fn catalog_problems_with(
    raw: RawCatalog,
    parsed: Result<(i64, u32, Seq<char>), Seq<char>>,
    image_exists: Seq<bool>,
) -> Seq<Seq<char>> {
    let prefixes = strings_view(raw.fulfillment.local_zip_prefixes@);
    let zips = strings_view(raw.fulfillment.local_zips@);
    closes_at_problems(raw.closes_at@, parsed) + prefix_problems(prefixes) + zip_problems(zips) + when(
        has_delivery_item(raw.items@) && prefixes.len() == 0 && zips.len() == 0,
        "scout_delivery items exist but no local_zip_prefixes or local_zips are configured"@,
    ) + when(raw.items@.len() == 0, "items must not be empty"@) + items_problems(
        raw.items@,
        image_exists,
    )
}

/// Every problem of the catalog, in the order they are reported.
pub open spec fn catalog_problems(raw: RawCatalog, image_exists: Seq<bool>) -> Seq<Seq<char>> {
    catalog_problems_with(raw, rfc3339_parsed(raw.closes_at@), image_exists)
}

pub open spec fn parsed_view(p: Result<(Timestamp, String), String>) -> Result<(i64, u32, Seq<char>), Seq<char>> {
    match p {
        Ok(t) => Ok((t.0.secs, t.0.nanos, t.1@)),
        Err(e) => Err(e@),
    }
}

/// `3 problem(s):` and the problems, one per line.
pub open spec fn problems_message(ps: Seq<Seq<char>>) -> Seq<char> {
    decimal(ps.len()) + " problem(s):\n  - "@ + join_spec(ps, "\n  - "@)
}

/// The public item made from a raw item.
pub open spec fn item_matches(ci: CatalogItem, it: RawItem) -> bool {
    &&& ci.id@ == it.id@
    &&& ci.name@ == it.name@
    &&& ci.description@ == it.description@
    &&& ci.price_cents == it.price_cents
    &&& ci.fulfillment == it.fulfillment
    &&& ci.max_qty == max_qty_of(it)
    &&& ci.image_url@ == "/images/"@ + it.image@
    &&& ci.image_alt@ == it.image_alt@
}

#[derive(Debug)]
pub struct CatalogError {
    pub message: String,
}

/// Immutable, validated catalog.
#[derive(Debug)]
pub struct Catalog {
    pub closes_at: Timestamp,
    view: CatalogResponse,
}

impl Catalog {
    /// The public view as built at startup (`open` is set per request).
    pub closed spec fn response(&self) -> CatalogResponse {
        self.view
    }

    /// The last instant at which orders are taken.
    pub closed spec fn cutoff(&self) -> Timestamp {
        self.closes_at
    }
}

fn when_push(problems: &mut Vec<String>, c: bool, msg: String)
    ensures
        views_of_strings(final(problems)@) == views_of_strings(old(problems)@) + when(c, msg@),
{
    if c {
        problems.push(msg);
    }
    assert(views_of_strings(problems@) =~= views_of_strings(old(problems)@) + when(c, msg@));
}

pub open spec fn views_of_strings(v: Seq<String>) -> Seq<Seq<char>> {
    v.map_values(|s: String| s@)
}

fn cat(a: &str, b: &str, c: &str) -> (r: String)
    ensures
        r@ == a@ + b@ + c@,
{
    let mut r = String::from_str(a);
    r.append(b);
    r.append(c);
    r
}

fn is_blank(s: &String) -> (r: bool)
    ensures
        r == (trim_spec(s@).len() == 0),
{
    let cs = chars_of(s.as_str());
    let t = trim_chars(&cs);
    t.len() == 0
}

fn id_is_ok(id: &String) -> (r: bool)
    ensures
        r == id_ok(id@),
{
    let cs = chars_of(id.as_str());
    if cs.len() == 0 {
        return false;
    }
    let mut i: usize = 0;
    while i < cs.len()
        invariant
            i <= cs.len(),
            cs@ == id@,
            forall|j: int| 0 <= j < i ==> is_id_char(#[trigger] cs@[j]),
        decreases cs.len() - i,
    {
        let c = cs[i];
        if !(('a' <= c && c <= 'z') || ('0' <= c && c <= '9') || c == '-') {
            return false;
        }
        i = i + 1;
    }
    true
}

fn image_is_plain(img: &String) -> (r: bool)
    ensures
        r == image_name_ok(img@),
{
    let cs = chars_of(img.as_str());
    if cs.len() == 0 {
        return false;
    }
    if cs[0] == '.' {
        return false;
    }
    let mut i: usize = 0;
    while i < cs.len()
        invariant
            i <= cs.len(),
            cs@ == img@,
            forall|j: int| 0 <= j < i ==> cs@[j] != '/',
            forall|j: int| 0 <= j < i && j + 1 < cs@.len() ==> !(cs@[j] == '.' && #[trigger] cs@[j + 1] == '.'),
        decreases cs.len() - i,
    {
        if cs[i] == '/' {
            assert(img@[i as int] == '/');
            return false;
        }
        if i + 1 < cs.len() && cs[i] == '.' && cs[i + 1] == '.' {
            assert(img@[i + 1] == '.');
            return false;
        }
        i = i + 1;
    }
    assert(!img@.contains('/'));
    assert(!has_dot_dot(img@)) by {
        if has_dot_dot(img@) {
            let k = choose|k: int| 0 <= k < img@.len() - 1 && img@[k] == '.' && #[trigger] img@[k + 1] == '.';
            assert(!(cs@[k] == '.' && cs@[k + 1] == '.'));
        }
    }
    true
}

fn contains_id(ids: &Vec<String>, id: &String) -> (r: bool)
    ensures
        r == views_of_strings(ids@).contains(id@),
{
    let mut i: usize = 0;
    while i < ids.len()
        invariant
            i <= ids.len(),
            forall|j: int| 0 <= j < i ==> ids@[j]@ != id@,
        decreases ids.len() - i,
    {
        if crate::text::str_eq(ids[i].as_str(), id.as_str()) {
            assert(views_of_strings(ids@)[i as int] == id@);
            return true;
        }
        i = i + 1;
    }
    assert(!views_of_strings(ids@).contains(id@)) by {
        if views_of_strings(ids@).contains(id@) {
            let k = choose|k: int| 0 <= k < views_of_strings(ids@).len() && views_of_strings(ids@)[k] == id@;
            assert(ids@[k]@ == id@);
        }
    }
    false
}

/// Checks one item and adds its problems.
fn check_item(
    problems: &mut Vec<String>,
    it: &RawItem,
    earlier: &Vec<String>,
    found: bool,
)
    ensures
        views_of_strings(final(problems)@) == views_of_strings(old(problems)@) + item_problems(
            *it,
            views_of_strings(earlier@),
            found,
        ),
{
    let q = debug_quote(it.id.as_str());
    let who = crate::text::concat2("item ", q.as_str());
    let ghost w = "item "@ + debug_quoted(it.id@);
    assert(who@ == w);
    let ghost start = views_of_strings(problems@);
    let ghost e = views_of_strings(earlier@);
    let ghost p1 = id_problem(*it);
    let ghost p2 = duplicate_problem(*it, e);
    let ghost p3 = name_problem(*it);
    let ghost p4 = price_problem(*it);
    let ghost p5 = max_qty_problem(*it);
    let ghost p6 = image_problem(*it, found);
    let ghost p7 = image_alt_problem(*it);
    when_push(problems, !id_is_ok(&it.id), crate::text::concat2(who.as_str(), ": id must be lowercase letters, digits and '-'"));
    assert(views_of_strings(problems@) == start + p1);
    when_push(problems, contains_id(earlier, &it.id), crate::text::concat2(who.as_str(), ": duplicate id"));
    proof { lemma_concat_associative(start, p1, p2); }
    when_push(problems, is_blank(&it.name), crate::text::concat2(who.as_str(), ": name is empty"));
    proof { lemma_concat_associative(start, p1 + p2, p3); }
    when_push(problems, it.price_cents <= 0, crate::text::concat2(who.as_str(), ": price_cents must be > 0"));
    proof { lemma_concat_associative(start, p1 + p2 + p3, p4); }
    let max_qty = match it.max_qty {
        Some(q) => q,
        None => DEFAULT_MAX_QTY,
    };
    when_push(problems, !(1 <= max_qty && max_qty <= 100), crate::text::concat2(who.as_str(), ": max_qty must be 1-100"));
    proof { lemma_concat_associative(start, p1 + p2 + p3 + p4, p5); }
    if !image_is_plain(&it.image) {
        when_push(problems, true, crate::text::concat2(who.as_str(), ": image must be a plain filename in static/images/"));
    } else {
        let img = debug_quote(it.image.as_str());
        let mut msg = cat(who.as_str(), ": image file ", img.as_str());
        msg.append(" not found in static/images/");
        when_push(problems, !found, msg);
    }
    proof { lemma_concat_associative(start, p1 + p2 + p3 + p4 + p5, p6); }
    when_push(problems, is_blank(&it.image_alt), crate::text::concat2(who.as_str(), ": image_alt is required"));
    proof {
        lemma_concat_associative(start, p1 + p2 + p3 + p4 + p5 + p6, p7);
        reveal(item_problems);
    }
    assert(views_of_strings(problems@) =~= start + item_problems(*it, views_of_strings(earlier@), found));
}

fn item_of(it: &RawItem) -> (ci: CatalogItem)
    ensures
        item_matches(ci, *it),
{
    CatalogItem {
        id: it.id.clone(),
        name: it.name.clone(),
        description: it.description.clone(),
        price_cents: it.price_cents,
        fulfillment: it.fulfillment,
        max_qty: match it.max_qty {
            Some(q) => q,
            None => DEFAULT_MAX_QTY,
        },
        image_url: crate::text::concat2("/images/", it.image.as_str()),
        image_alt: it.image_alt.clone(),
    }
}

fn check_prefixes(problems: &mut Vec<String>, prefixes: &Vec<String>)
    ensures
        views_of_strings(final(problems)@) == views_of_strings(old(problems)@) + prefix_problems(
            strings_view(prefixes@),
        ),
{
    let ghost start = views_of_strings(problems@);
    let ghost ps = strings_view(prefixes@);
    let mut i: usize = 0;
    assert(ps.take(0) =~= Seq::<Seq<char>>::empty());
    assert(start + Seq::<Seq<char>>::empty() =~= start);
    while i < prefixes.len()
        invariant
            i <= prefixes.len(),
            ps == strings_view(prefixes@),
            views_of_strings(problems@) == start + prefix_problems(ps.take(i as int)),
        decreases prefixes.len() - i,
    {
        assert(ps.take(i + 1).drop_last() =~= ps.take(i as int));
        assert(ps.take(i + 1).last() == prefixes@[i as int]@);
        let cs = chars_of(prefixes[i].as_str());
        let ok = cs.len() >= 1 && cs.len() <= 5 && all_digits(&cs);
        let q = debug_quote(prefixes[i].as_str());
        let msg = cat("local_zip_prefixes entry ", q.as_str(), " must be 1-5 digits");
        let ghost before = views_of_strings(problems@);
        when_push(problems, !ok, msg);
        proof {
            lemma_concat_associative(start, prefix_problems(ps.take(i as int)), when(!ok, msg@));
        }
        i = i + 1;
    }
    assert(ps.take(prefixes.len() as int) =~= ps);
}

fn check_zips(problems: &mut Vec<String>, zips: &Vec<String>)
    ensures
        views_of_strings(final(problems)@) == views_of_strings(old(problems)@) + zip_problems(
            strings_view(zips@),
        ),
{
    let ghost start = views_of_strings(problems@);
    let ghost zs = strings_view(zips@);
    let mut i: usize = 0;
    assert(zs.take(0) =~= Seq::<Seq<char>>::empty());
    assert(start + Seq::<Seq<char>>::empty() =~= start);
    while i < zips.len()
        invariant
            i <= zips.len(),
            zs == strings_view(zips@),
            views_of_strings(problems@) == start + zip_problems(zs.take(i as int)),
        decreases zips.len() - i,
    {
        assert(zs.take(i + 1).drop_last() =~= zs.take(i as int));
        assert(zs.take(i + 1).last() == zips@[i as int]@);
        let cs = chars_of(zips[i].as_str());
        let ok = cs.len() == 5 && all_digits(&cs);
        let q = debug_quote(zips[i].as_str());
        let msg = cat("local_zips entry ", q.as_str(), " must be exactly 5 digits");
        when_push(problems, !ok, msg);
        proof {
            lemma_concat_associative(start, zip_problems(zs.take(i as int)), when(!ok, msg@));
        }
        i = i + 1;
    }
    assert(zs.take(zips.len() as int) =~= zs);
}

fn any_delivery_item(items: &Vec<RawItem>) -> (r: bool)
    ensures
        r == has_delivery_item(items@),
{
    let mut i: usize = 0;
    while i < items.len()
        invariant
            i <= items.len(),
            forall|j: int| 0 <= j < i ==> items@[j].fulfillment != Fulfillment::ScoutDelivery,
        decreases items.len() - i,
    {
        if items[i].fulfillment == Fulfillment::ScoutDelivery {
            return true;
        }
        i = i + 1;
    }
    false
}

/// Checks every item, adding its problems, and builds the public items.
fn check_items(problems: &mut Vec<String>, items: &Vec<RawItem>, image_exists: &Vec<bool>) -> (out:
    Vec<CatalogItem>)
    ensures
        views_of_strings(final(problems)@) == views_of_strings(old(problems)@) + items_problems(
            items@,
            image_exists@,
        ),
        out@.len() == items@.len(),
        forall|i: int| 0 <= i < items@.len() ==> item_matches(#[trigger] out@[i], items@[i]),
{
    let ghost start = views_of_strings(problems@);
    let mut ids: Vec<String> = Vec::new();
    let mut out: Vec<CatalogItem> = Vec::new();
    let mut i: usize = 0;
    assert(items@.take(0) =~= Seq::<RawItem>::empty());
    assert(start + Seq::<Seq<char>>::empty() =~= start);
    while i < items.len()
        invariant
            i <= items.len(),
            views_of_strings(problems@) == start + items_problems(items@.take(i as int), image_exists@),
            views_of_strings(ids@) == raw_ids(items@.take(i as int)),
            out@.len() == i,
            forall|j: int| 0 <= j < i ==> item_matches(#[trigger] out@[j], items@[j]),
        decreases items.len() - i,
    {
        let ghost taken = items@.take(i + 1);
        assert(taken.drop_last() =~= items@.take(i as int));
        assert(taken.last() == items@[i as int]);
        let found = i < image_exists.len() && image_exists[i];
        check_item(problems, &items[i], &ids, found);
        proof {
            lemma_concat_associative(
                start,
                items_problems(items@.take(i as int), image_exists@),
                item_problems(items@[i as int], raw_ids(items@.take(i as int)), found),
            );
        }
        let ghost ids_before = ids@;
        let id = items[i].id.clone();
        ids.push(id);
        assert(views_of_strings(ids@) =~= views_of_strings(ids_before).push(items@[i as int].id@));
        assert(raw_ids(items@.take(i + 1)) =~= raw_ids(items@.take(i as int)).push(items@[i as int].id@));
        out.push(item_of(&items[i]));
        i = i + 1;
    }
    assert(items@.take(items.len() as int) =~= items@);
    out
}

fn problems_text(problems: &Vec<String>) -> (r: String)
    ensures
        r@ == problems_message(views_of_strings(problems@)),
{
    let mut parts: Vec<Vec<char>> = Vec::new();
    let mut i: usize = 0;
    while i < problems.len()
        invariant
            i <= problems.len(),
            views_of(parts@) == views_of_strings(problems@).take(i as int),
        decreases problems.len() - i,
    {
        let ghost before = parts@;
        let cs = chars_of(problems[i].as_str());
        parts.push(cs);
        assert(views_of(parts@) =~= views_of(before).push(problems@[i as int]@));
        assert(views_of_strings(problems@).take(i + 1) =~= views_of_strings(problems@).take(i as int).push(problems@[i as int]@));
        i = i + 1;
    }
    assert(views_of_strings(problems@).take(problems.len() as int) =~= views_of_strings(problems@));
    let sep = chars_of("\n  - ");
    let joined = join_chars(&parts, &sep);
    let count = string_of(&u64_decimal(problems.len() as u64));
    let mut r = count;
    r.append(" problem(s):\n  - ");
    r.append(string_of(&joined).as_str());
    r
}

impl Catalog {
    /// Checks the catalog, given what parsing `closes_at` gave, and reports every problem at
    /// once. `image_exists[i]` says whether the image file of item `i` exists (consulted only
    /// for a plain file name).
    pub fn check(
        raw: RawCatalog,
        closes_at: Result<(Timestamp, String), String>,
        image_exists: &Vec<bool>,
    ) -> (r: Result<Catalog, CatalogError>)
        ensures
            r is Ok <==> catalog_problems_with(raw, parsed_view(closes_at), image_exists@).len() == 0,
            r matches Err(e) ==> e.message@ == problems_message(
                catalog_problems_with(raw, parsed_view(closes_at), image_exists@),
            ),
            r matches Ok(c) ==> {
                &&& parsed_view(closes_at) == Ok::<(i64, u32, Seq<char>), Seq<char>>(
                    (c.cutoff().secs, c.cutoff().nanos, c.response().closes_at@),
                )
                &&& c.response().open
                &&& c.response().delivery_note == raw.delivery_note
                &&& c.response().shipping_note == raw.shipping_note
                &&& c.response().local_zip_prefixes@ == raw.fulfillment.local_zip_prefixes@
                &&& c.response().local_zips@ == raw.fulfillment.local_zips@
                &&& c.response().support == raw.support
                &&& c.response().items@.len() == raw.items@.len()
                &&& forall|i: int|
                    0 <= i < raw.items@.len() ==> item_matches(
                        #[trigger] c.response().items@[i],
                        raw.items@[i],
                    )
            },
    {
        let ghost all = catalog_problems_with(raw, parsed_view(closes_at), image_exists@);
        let mut problems: Vec<String> = Vec::new();
        let parsed = closes_at;
        match &parsed {
            Ok(_) => {},
            Err(e) => {
                let q = debug_quote(raw.closes_at.as_str());
                let mut msg = cat("closes_at ", q.as_str(), " is not RFC 3339 with an offset: ");
                msg.append(e.as_str());
                problems.push(msg);
            },
        }
        let ghost p1 = closes_at_problems(raw.closes_at@, parsed_view(parsed));
        assert(views_of_strings(problems@) =~= p1);
        let ghost p2 = prefix_problems(strings_view(raw.fulfillment.local_zip_prefixes@));
        check_prefixes(&mut problems, &raw.fulfillment.local_zip_prefixes);
        let ghost p3 = zip_problems(strings_view(raw.fulfillment.local_zips@));
        check_zips(&mut problems, &raw.fulfillment.local_zips);
        proof { lemma_concat_associative(p1, p2, p3); }
        let no_area = raw.fulfillment.local_zip_prefixes.len() == 0 && raw.fulfillment.local_zips.len() == 0;
        let delivery = any_delivery_item(&raw.items);
        let ghost p4 = when(
            has_delivery_item(raw.items@) && strings_view(raw.fulfillment.local_zip_prefixes@).len() == 0
                && strings_view(raw.fulfillment.local_zips@).len() == 0,
            "scout_delivery items exist but no local_zip_prefixes or local_zips are configured"@,
        );
        when_push(
            &mut problems,
            delivery && no_area,
            String::from_str("scout_delivery items exist but no local_zip_prefixes or local_zips are configured"),
        );
        proof { lemma_concat_associative(p1, p2 + p3, p4); }
        let ghost p5 = when(raw.items@.len() == 0, "items must not be empty"@);
        when_push(&mut problems, raw.items.len() == 0, String::from_str("items must not be empty"));
        proof { lemma_concat_associative(p1, p2 + p3 + p4, p5); }
        let ghost p6 = items_problems(raw.items@, image_exists@);
        let items = check_items(&mut problems, &raw.items, image_exists);
        proof { lemma_concat_associative(p1, p2 + p3 + p4 + p5, p6); }
        assert(views_of_strings(problems@) == all);
        if problems.len() > 0 {
            return Err(CatalogError { message: problems_text(&problems) });
        }
        let (closes_at, closes_text) = match parsed {
            Ok(p) => p,
            Err(_) => {
                assert(views_of_strings(problems@).len() > 0);
                return Err(CatalogError { message: problems_text(&problems) });
            },
        };
        Ok(
            Catalog {
                closes_at,
                view: CatalogResponse {
                    open: true,
                    closes_at: closes_text,
                    delivery_note: raw.delivery_note,
                    shipping_note: raw.shipping_note,
                    local_zip_prefixes: raw.fulfillment.local_zip_prefixes,
                    local_zips: raw.fulfillment.local_zips,
                    support: raw.support,
                    items,
                },
            },
        )
    }

    /// Checks the catalog and reports every problem at once. `image_exists[i]` says whether
    /// the image file of item `i` exists (consulted only for a plain file name).
    pub fn parse(raw: RawCatalog, image_exists: &Vec<bool>) -> (r: Result<Catalog, CatalogError>)
        ensures
            r is Ok <==> catalog_problems(raw, image_exists@).len() == 0,
            r matches Err(e) ==> e.message@ == problems_message(catalog_problems(raw, image_exists@)),
            r matches Ok(c) ==> {
                &&& rfc3339_parsed(raw.closes_at@) == Ok::<(i64, u32, Seq<char>), Seq<char>>(
                    (c.cutoff().secs, c.cutoff().nanos, c.response().closes_at@),
                )
                &&& c.response().open
                &&& c.response().delivery_note == raw.delivery_note
                &&& c.response().shipping_note == raw.shipping_note
                &&& c.response().local_zip_prefixes@ == raw.fulfillment.local_zip_prefixes@
                &&& c.response().local_zips@ == raw.fulfillment.local_zips@
                &&& c.response().support == raw.support
                &&& c.response().items@.len() == raw.items@.len()
                &&& forall|i: int|
                    0 <= i < raw.items@.len() ==> item_matches(
                        #[trigger] c.response().items@[i],
                        raw.items@[i],
                    )
            },
    {
        let parsed = parse_rfc3339(raw.closes_at.as_str());
        Catalog::check(raw, parsed, image_exists)
    }

    /// Orders are taken up to and including the cutoff instant.
    pub fn is_open(&self, now: Timestamp) -> (r: bool)
        ensures
            r == not_after(now, self.cutoff()),
    {
        now.secs < self.closes_at.secs || (now.secs == self.closes_at.secs && now.nanos
            <= self.closes_at.nanos)
    }

    /// The public view, with `open` set for the given time.
    pub fn view(&self, now: Timestamp) -> (r: CatalogResponse)
        ensures
            r.same_as(CatalogResponse { open: not_after(now, self.cutoff()), ..self.response() }),
    {
        let mut r = self.view.clone();
        r.open = self.is_open(now);
        r
    }
}

/// Orders close at the cutoff and stay closed: a time after a closed one is closed too.
pub proof fn lemma_closed_stays_closed(a: Timestamp, b: Timestamp, cutoff: Timestamp)
    requires
        !not_after(a, cutoff),
        not_after(a, b),
    ensures
        !not_after(b, cutoff),
{
}

} // verus!
