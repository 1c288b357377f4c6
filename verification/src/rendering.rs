//! Rendering of selected sections into one of the three output formats.
//!
//! A static section emits its template body verbatim.  A data-bound
//! section extracts items from the cache, sorts and caps them, renders
//! each through its item template and joins them between header and
//! footer.  A section whose active format has no template, or that fails
//! to render, contributes nothing; an empty contribution adds no
//! separator to the join.

use vstd::prelude::*;

use crate::state::{Cache, CacheView, ConstraintView, FileView, LockLevel, spec_layer_names};
use crate::strutil::{dec_rep, find_from, lower_seq, str_eq, u64_to_string};
use crate::types::{
    DataFilter, DataView, EmptyBehavior, FilterView, OutputFormat, PrimerSection, SectionView,
    SelectedSection, SortOrder, TemplateView,
};
use vstd::string::StrSliceExecFns;
use vstd::string::StringExecFns;

verus! {

/// A per-section rendering failure.
#[derive(Debug)]
pub enum RenderError {
    /// The section has no template for the active format.
    MissingFormat(OutputFormat),
    /// Template substitution failed.
    Template(String),
    /// The section requires data and its data list is empty.
    EmptyData(String),
}

/// What the template engine produces for a template string and a flat
/// map of string fields, or `None` when the template is rejected.
pub uninterp spec fn hb_subst(template: Seq<char>, data: Seq<(Seq<char>, Seq<char>)>) -> Option<
    Seq<char>,
>;

/// Relies on `handlebars::Handlebars::render_template`, on a fresh
/// registry with HTML escaping turned off: what it renders for a
/// template string and a flat map of string values is a function of
/// those two arguments alone.
#[verifier::external_body]
fn hb_render(template: &str, data: &Vec<(String, String)>) -> (r: Option<String>)
    ensures
        match r {
            Some(s) => hb_subst(template@, data.deep_view()) == Some(s@),
            None => hb_subst(template@, data.deep_view()) is None,
        },
{
    let mut registry = handlebars::Handlebars::new();
    registry.register_escape_fn(handlebars::no_escape);
    let mut map = serde_json::Map::new();
    for (k, v) in data.iter() {
        map.insert(k.clone(), serde_json::Value::String(v.clone()));
    }
    registry.render_template(template, &serde_json::Value::Object(map)).ok()
}

/// The parts joined with `sep` between each pair.
pub open spec fn join_seqs(parts: Seq<Seq<char>>, sep: Seq<char>) -> Seq<char>
    decreases parts.len(),
{
    if parts.len() == 0 {
        Seq::empty()
    } else if parts.len() == 1 {
        parts[0]
    } else {
        join_seqs(parts.drop_last(), sep) + sep + parts.last()
    }
}

/// Joins strings with a separator.
#[verifier::loop_isolation(false)]
fn join_strings(parts: &Vec<String>, sep: &str) -> (r: String)
    ensures
        r@ == join_seqs(parts.deep_view(), sep@),
{
    let mut r = String::new();
    let mut i: usize = 0;
    while i < parts.len()
        invariant
            0 <= i <= parts@.len(),
            r@ == join_seqs(parts.deep_view().subrange(0, i as int), sep@),
        decreases parts@.len() - i,
    {
        proof {
            let pre = parts.deep_view().subrange(0, i as int);
            let post = parts.deep_view().subrange(0, i + 1);
            assert(post.drop_last() =~= pre);
            assert(post.last() == parts.deep_view()[i as int]);
            assert(parts.deep_view()[i as int] == parts@[i as int]@);
        }
        if i > 0 {
            r.append(sep);
        }
        r.append(parts[i].as_str());
        i += 1;
    }
    proof {
        assert(parts.deep_view().subrange(0, parts@.len() as int) =~= parts.deep_view());
    }
    r
}

/// One field value of a data item: text, or a number rendered in
/// decimal.
pub enum FieldValue {
    Text(String),
    Num(u64),
}

/// Mathematical image of a [`FieldValue`].
pub enum FieldView {
    Text(Seq<char>),
    Num(u64),
}

impl View for FieldValue {
    type V = FieldView;

    open spec fn view(&self) -> FieldView {
        match self {
            FieldValue::Text(s) => FieldView::Text(s@),
            FieldValue::Num(n) => FieldView::Num(*n),
        }
    }
}

/// One data item: named fields in order.
pub struct DataItem {
    pub fields: Vec<(String, FieldValue)>,
}

/// Mathematical image of a [`DataItem`].
pub type ItemView = Seq<(Seq<char>, FieldView)>;

impl View for DataItem {
    type V = ItemView;

    open spec fn view(&self) -> ItemView {
        self.fields@.map_values(|p: (String, FieldValue)| (p.0@, p.1@))
    }
}

/// A field value rendered as a string.
pub open spec fn field_str(f: FieldView) -> Seq<char> {
    match f {
        FieldView::Text(s) => s,
        FieldView::Num(n) => dec_rep(n as int),
    }
}

/// The flat string map an item presents to the template engine.
pub open spec fn item_strings(item: ItemView) -> Seq<(Seq<char>, Seq<char>)> {
    item.map_values(|p: (Seq<char>, FieldView)| (p.0, field_str(p.1)))
}

/// Flattens an item's fields to strings.
#[verifier::loop_isolation(false)]
fn item_to_strings(item: &DataItem) -> (r: Vec<(String, String)>)
    ensures
        r.deep_view() == item_strings(item@),
{
    let mut r: Vec<(String, String)> = Vec::new();
    let mut i: usize = 0;
    while i < item.fields.len()
        invariant
            0 <= i <= item.fields@.len(),
            r.deep_view() == item_strings(item@).subrange(0, i as int),
        decreases item.fields@.len() - i,
    {
        let name = item.fields[i].0.clone();
        let value = match &item.fields[i].1 {
            FieldValue::Text(s) => s.clone(),
            FieldValue::Num(n) => u64_to_string(*n),
        };
        r.push((name, value));
        proof {
            assert(r.deep_view() =~= item_strings(item@).subrange(0, i + 1));
        }
        i += 1;
    }
    proof {
        assert(item_strings(item@).subrange(0, item.fields@.len() as int) =~= item_strings(
            item@,
        ));
    }
    r
}

/// The value of the first field named `key`, if any.
pub open spec fn item_field(item: ItemView, key: Seq<char>) -> Option<FieldView>
    decreases item.len(),
{
    if item.len() == 0 {
        None
    } else if item[0].0 == key {
        Some(item[0].1)
    } else {
        item_field(item.drop_first(), key)
    }
}

/// Looks up the first field named `key` of an item.
#[verifier::loop_isolation(false)]
fn find_field<'a>(item: &'a DataItem, key: &str) -> (r: Option<&'a FieldValue>)
    ensures
        match r {
            Some(f) => item_field(item@, key@) == Some(f@),
            None => item_field(item@, key@) is None,
        },
{
    let mut i: usize = 0;
    proof {
        assert(item@.subrange(0, item@.len() as int) =~= item@);
    }
    while i < item.fields.len()
        invariant
            0 <= i <= item.fields@.len(),
            item_field(item@, key@) == item_field(item@.subrange(i as int, item@.len() as int), key@),
        decreases item.fields@.len() - i,
    {
        proof {
            let rest = item@.subrange(i as int, item@.len() as int);
            assert(rest[0] == item@[i as int]);
            assert(rest.drop_first() =~= item@.subrange(i + 1, item@.len() as int));
        }
        if str_eq(item.fields[i].0.as_str(), key) {
            return Some(&item.fields[i].1);
        }
        i += 1;
    }
    proof {
        assert(item@.subrange(item@.len() as int, item@.len() as int) =~= Seq::<(
            Seq<char>,
            FieldView,
        )>::empty());
    }
    None
}


/// The display name of a lock level.
pub open spec fn level_name(lv: LockLevel) -> Seq<char> {
    match lv {
        LockLevel::Frozen => "frozen"@,
        LockLevel::Restricted => "restricted"@,
        LockLevel::ApprovalRequired => "approval-required"@,
        LockLevel::TestsRequired => "tests-required"@,
        LockLevel::DocsRequired => "docs-required"@,
        LockLevel::Normal => "normal"@,
    }
}

fn level_name_str(lv: LockLevel) -> (r: &'static str)
    ensures
        r@ == level_name(lv),
{
    match lv {
        LockLevel::Frozen => "frozen",
        LockLevel::Restricted => "restricted",
        LockLevel::ApprovalRequired => "approval-required",
        LockLevel::TestsRequired => "tests-required",
        LockLevel::DocsRequired => "docs-required",
        LockLevel::Normal => "normal",
    }
}

/// The item a domain record yields: its name, its file count, and its
/// description when it has one.
pub open spec fn domain_item(d: crate::state::DomainView) -> ItemView {
    let base = seq![
        ("name"@, FieldView::Text(d.name)),
        ("fileCount"@, FieldView::Num(d.files.len() as u64)),
    ];
    match d.description {
        Some(ds) => base.push(("description"@, FieldView::Text(ds))),
        None => base,
    }
}

/// The items of the domain source, in catalog order.
pub open spec fn spec_extract_domains(c: CacheView) -> Seq<ItemView> {
    c.domains.map_values(|d: crate::state::DomainView| domain_item(d))
}

/// The lock levels a constraint section keeps: the declared include
/// filter, or frozen and restricted by default.
pub open spec fn spec_filter_levels(d: DataView) -> Seq<Seq<char>> {
    match d.filter {
        Some(f) => match f {
            FilterView::Include(ls) => ls,
        },
        None => seq!["frozen"@, "restricted"@],
    }
}

/// Whether a constraint record passes the level filter.
pub open spec fn constraint_kept(c: ConstraintView, levels: Seq<Seq<char>>) -> bool {
    match c.mutation {
        Some(m) => levels.contains(level_name(m.level)),
        None => false,
    }
}

/// The item a constraint record yields: its path, its level, and its
/// reason when it has one.
pub open spec fn constraint_item(c: ConstraintView) -> ItemView {
    match c.mutation {
        Some(m) => {
            let base = seq![
                ("path"@, FieldView::Text(c.path)),
                ("level"@, FieldView::Text(level_name(m.level))),
            ];
            match m.reason {
                Some(rs) => base.push(("reason"@, FieldView::Text(rs))),
                None => base,
            }
        },
        None => seq![("path"@, FieldView::Text(c.path))],
    }
}

/// The items of the constraint source: records passing the level
/// filter, in record order.
pub open spec fn spec_constraint_items(cs: Seq<ConstraintView>, levels: Seq<Seq<char>>) -> Seq<
    ItemView,
>
    decreases cs.len(),
{
    if cs.len() == 0 {
        Seq::empty()
    } else {
        let prev = spec_constraint_items(cs.drop_last(), levels);
        if constraint_kept(cs.last(), levels) {
            prev.push(constraint_item(cs.last()))
        } else {
            prev
        }
    }
}

pub open spec fn spec_extract_constraints(c: CacheView, d: DataView) -> Seq<ItemView> {
    match c.constraints {
        Some(cs) => spec_constraint_items(cs, spec_filter_levels(d)),
        None => Seq::empty(),
    }
}

/// How many files declare the layer `l`.
pub open spec fn count_layer(files: Seq<FileView>, l: Seq<char>) -> int
    decreases files.len(),
{
    if files.len() == 0 {
        0
    } else {
        count_layer(files.drop_last(), l) + if files.last().layer == Some(l) {
            1int
        } else {
            0
        }
    }
}

/// The items of the layer source: each distinct layer, in order of
/// first appearance, with its file count.
pub open spec fn spec_extract_layers(c: CacheView) -> Seq<ItemView> {
    spec_layer_names(c.files).map_values(
        |l: Seq<char>|
            seq![
                ("name"@, FieldView::Text(l)),
                ("fileCount"@, FieldView::Num(count_layer(c.files, l) as u64)),
            ],
    )
}

/// Whether a path looks like an entry point: it ends, case-folded, in a
/// well-known entry file name, or is a Rust file under a `src`
/// directory.
pub open spec fn is_entry_path(path: Seq<char>) -> bool {
    let lp = lower_seq(path);
    crate::strutil::ends_with(lp, "main.rs"@) || crate::strutil::ends_with(lp, "main.ts"@)
        || crate::strutil::ends_with(lp, "main.py"@) || crate::strutil::ends_with(lp, "index.ts"@)
        || crate::strutil::ends_with(lp, "index.js"@) || crate::strutil::ends_with(lp, "app.ts"@)
        || crate::strutil::ends_with(lp, "app.py"@) || crate::strutil::ends_with(lp, "mod.rs"@) || (
    find_from(lp, "/src/"@, 0) is Some && crate::strutil::ends_with(lp, ".rs"@))
}

/// The item a file yields as an entry point: its path and language.
pub open spec fn entry_item(f: FileView) -> ItemView {
    seq![("path"@, FieldView::Text(f.path)), ("type"@, FieldView::Text(f.language))]
}

/// The first `limit` entry-point files, in file order.
pub open spec fn spec_take_entries(files: Seq<FileView>, limit: int) -> Seq<ItemView>
    decreases files.len(),
{
    if files.len() == 0 || limit <= 0 {
        Seq::empty()
    } else if is_entry_path(files[0].path) {
        seq![entry_item(files[0])] + spec_take_entries(files.drop_first(), limit - 1)
    } else {
        spec_take_entries(files.drop_first(), limit)
    }
}

/// Strict ordering of two optional field values under a sort order:
/// numbers compare numerically, text lexicographically, anything else
/// ties.
pub open spec fn field_before(a: Option<FieldView>, b: Option<FieldView>, order: SortOrder) -> bool {
    match (a, b) {
        (Some(FieldView::Num(x)), Some(FieldView::Num(y))) => match order {
            SortOrder::Asc => x < y,
            SortOrder::Desc => x > y,
        },
        (Some(FieldView::Text(x)), Some(FieldView::Text(y))) => match order {
            SortOrder::Asc => crate::strutil::lex_lt(x, y),
            SortOrder::Desc => crate::strutil::lex_lt(y, x),
        },
        _ => false,
    }
}

/// Whether item `a` sorts strictly before item `b` on the named field.
pub open spec fn item_before(a: ItemView, b: ItemView, key: Seq<char>, order: SortOrder) -> bool {
    field_before(item_field(a, key), item_field(b, key), order)
}

/// `x` inserted into the sorted run `s`, after every item it does not
/// strictly precede, which keeps equal keys in arrival order.
pub open spec fn spec_insert_item(s: Seq<ItemView>, x: ItemView, key: Seq<char>, order: SortOrder) -> Seq<
    ItemView,
>
    decreases s.len(),
{
    if s.len() == 0 {
        seq![x]
    } else if item_before(x, s[0], key, order) {
        seq![x] + s
    } else {
        seq![s[0]] + spec_insert_item(s.drop_first(), x, key, order)
    }
}

/// The stable insertion sort of `s` on the named field.
pub open spec fn spec_sort_items(s: Seq<ItemView>, key: Seq<char>, order: SortOrder) -> Seq<ItemView>
    decreases s.len(),
{
    if s.len() == 0 {
        Seq::empty()
    } else {
        spec_insert_item(spec_sort_items(s.drop_last(), key, order), s.last(), key, order)
    }
}

proof fn lemma_insert_item_at(s: Seq<ItemView>, x: ItemView, key: Seq<char>, order: SortOrder, p: int)
    requires
        0 <= p <= s.len(),
        forall|q: int| 0 <= q < p ==> !item_before(x, #[trigger] s[q], key, order),
        p < s.len() ==> item_before(x, s[p], key, order),
    ensures
        spec_insert_item(s, x, key, order) == s.subrange(0, p) + seq![x] + s.subrange(
            p,
            s.len() as int,
        ),
    decreases s.len(),
{
    if s.len() == 0 {
        assert(spec_insert_item(s, x, key, order) =~= s.subrange(0, 0) + seq![x] + s.subrange(
            0,
            0,
        ));
    } else if item_before(x, s[0], key, order) {
        assert(p == 0);
        assert(spec_insert_item(s, x, key, order) =~= s.subrange(0, 0) + seq![x] + s.subrange(
            0,
            s.len() as int,
        ));
    } else {
        assert(p >= 1);
        let t = s.drop_first();
        assert(forall|q: int| 0 <= q < p - 1 ==> t[q] == s[q + 1]);
        lemma_insert_item_at(t, x, key, order, p - 1);
        assert(seq![s[0]] + (t.subrange(0, p - 1) + seq![x] + t.subrange(p - 1, t.len() as int))
            =~= s.subrange(0, p) + seq![x] + s.subrange(p, s.len() as int));
    }
}

/// The views of a list of data items.
pub open spec fn items_views(v: Seq<DataItem>) -> Seq<ItemView> {
    v.map_values(|it: DataItem| it@)
}

fn field_before_exec(a: Option<&FieldValue>, b: Option<&FieldValue>, order: SortOrder) -> (r: bool)
    ensures
        r == field_before(
            match a {
                Some(f) => Some(f@),
                None => None,
            },
            match b {
                Some(f) => Some(f@),
                None => None,
            },
            order,
        ),
{
    match (a, b) {
        (Some(FieldValue::Num(x)), Some(FieldValue::Num(y))) => match order {
            SortOrder::Asc => *x < *y,
            SortOrder::Desc => *x > *y,
        },
        (Some(FieldValue::Text(x)), Some(FieldValue::Text(y))) => match order {
            SortOrder::Asc => crate::strutil::str_lt(x.as_str(), y.as_str()),
            SortOrder::Desc => crate::strutil::str_lt(y.as_str(), x.as_str()),
        },
        _ => false,
    }
}

fn item_before_exec(a: &DataItem, b: &DataItem, key: &str, order: SortOrder) -> (r: bool)
    ensures
        r == item_before(a@, b@, key@, order),
{
    field_before_exec(find_field(a, key), find_field(b, key), order)
}

/// Stable insertion sort of items on the named field.
#[verifier::loop_isolation(false)]
fn sort_items(items: Vec<DataItem>, key: &str, order: SortOrder) -> (r: Vec<DataItem>)
    ensures
        items_views(r@) == spec_sort_items(items_views(items@), key@, order),
{
    let mut r: Vec<DataItem> = Vec::new();
    let mut i: usize = 0;
    proof {
        assert(items_views(r@) =~= Seq::<ItemView>::empty());
        assert(spec_sort_items(items_views(items@).subrange(0, 0), key@, order) =~= Seq::<
            ItemView,
        >::empty());
        assert(items_views(r@) == spec_sort_items(items_views(items@).subrange(0, 0), key@, order));
    }
    while i < items.len()
        invariant
            0 <= i <= items@.len(),
            items_views(r@) == spec_sort_items(items_views(items@).subrange(0, i as int), key@, order),
        decreases items@.len() - i,
    {
        let mut q: usize = 0;
        let ghost r0 = r@;
        while q < r.len() && !item_before_exec(&items[i], &r[q], key, order)
            invariant
                r@ == r0,
                0 <= q <= r@.len(),
                i < items@.len(),
                forall|p: int|
                    0 <= p < q ==> !item_before(
                        items@[i as int]@,
                        #[trigger] items_views(r0)[p],
                        key@,
                        order,
                    ),
            decreases r@.len() - q,
        {
            proof {
                assert(items_views(r0)[q as int] == r0[q as int]@);
            }
            q += 1;
        }
        proof {
            if q < r0.len() {
                assert(items_views(r0)[q as int] == r0[q as int]@);
            }
        }
        let x = clone_item(&items, i);
        r.insert(q, x);
        proof {
            let pre = items_views(items@).subrange(0, i as int);
            let post = items_views(items@).subrange(0, i + 1);
            assert(post.drop_last() =~= pre);
            assert(post.last() == items@[i as int]@);
            lemma_insert_item_at(items_views(r0), items@[i as int]@, key@, order, q as int);
            assert(r@ == r0.subrange(0, q as int).push(x) + r0.subrange(q as int, r0.len() as int));
            assert(items_views(r@) =~= items_views(r0).subrange(0, q as int) + seq![
                items@[i as int]@,
            ] + items_views(r0).subrange(q as int, r0.len() as int));
        }
        i += 1;
    }
    proof {
        assert(items_views(items@).subrange(0, items@.len() as int) =~= items_views(items@));
    }
    r
}

/// Clones the indexed item, field by field, preserving its view.
fn clone_item(items: &Vec<DataItem>, i: usize) -> (r: DataItem)
    requires
        i < items@.len(),
    ensures
        r@ == items@[i as int]@,
{
    let mut fields: Vec<(String, FieldValue)> = Vec::new();
    let n = items[i].fields.len();
    let mut k: usize = 0;
    while k < n
        invariant
            i < items@.len(),
            n == items@[i as int].fields@.len(),
            0 <= k <= n,
            fields@.len() == k,
            fields@.map_values(|p: (String, FieldValue)| (p.0@, p.1@)) == items@[i as int]@
                .subrange(0, k as int),
        decreases n - k,
    {
        let name = items[i].fields[k].0.clone();
        let value = match &items[i].fields[k].1 {
            FieldValue::Text(s) => FieldValue::Text(s.clone()),
            FieldValue::Num(m) => FieldValue::Num(*m),
        };
        fields.push((name, value));
        proof {
            assert(fields@.len() == k + 1);
            assert(fields@[k as int].0@ == items@[i as int].fields@[k as int].0@);
            assert(fields@[k as int].1@ == items@[i as int].fields@[k as int].1@);
            assert(items@[i as int]@[k as int] == (
                items@[i as int].fields@[k as int].0@,
                items@[i as int].fields@[k as int].1@,
            ));
            assert(fields@.map_values(|p: (String, FieldValue)| (p.0@, p.1@)) =~= items@[i as int]@
                .subrange(0, k + 1));
        }
        k += 1;
    }
    proof {
        assert(items@[i as int]@.subrange(0, n as int) =~= items@[i as int]@);
    }
    DataItem { fields }
}


#[verifier::loop_isolation(false)]
fn extract_domains(cache: &Cache) -> (r: Vec<DataItem>)
    ensures
        items_views(r@) == spec_extract_domains(cache@),
{
    let mut r: Vec<DataItem> = Vec::new();
    let mut i: usize = 0;
    proof {
        assert(items_views(r@) =~= spec_extract_domains(cache@).subrange(0, 0));
    }
    while i < cache.domains.len()
        invariant
            0 <= i <= cache.domains@.len(),
            r@.len() == i,
            items_views(r@) == spec_extract_domains(cache@).subrange(0, i as int),
        decreases cache.domains@.len() - i,
    {
        let d = &cache.domains[i];
        let mut fields: Vec<(String, FieldValue)> = Vec::new();
        fields.push((String::from_str("name"), FieldValue::Text(d.name.clone())));
        fields.push((String::from_str("fileCount"), FieldValue::Num(d.files.len() as u64)));
        match &d.description {
            Some(ds) => {
                fields.push((String::from_str("description"), FieldValue::Text(ds.clone())));
            },
            None => {},
        }
        let item = DataItem { fields };
        proof {
            assert(item@ =~= domain_item(cache@.domains[i as int]));
        }
        r.push(item);
        proof {
            assert(items_views(r@) =~= spec_extract_domains(cache@).subrange(0, i + 1));
        }
        i += 1;
    }
    proof {
        assert(spec_extract_domains(cache@).subrange(0, cache.domains@.len() as int)
            =~= spec_extract_domains(cache@));
    }
    r
}

#[verifier::loop_isolation(false)]
fn extract_constraints(cache: &Cache, data: &crate::types::SectionData) -> (r: Vec<DataItem>)
    ensures
        items_views(r@) == spec_extract_constraints(cache@, data@),
{
    let cs = match &cache.constraints {
        Some(cs) => cs,
        None => {
            let r: Vec<DataItem> = Vec::new();
            proof {
                assert(items_views(r@) =~= Seq::<ItemView>::empty());
            }
            return r;
        },
    };
    let default_levels: Vec<String> = {
        let mut v: Vec<String> = Vec::new();
        v.push(String::from_str("frozen"));
        v.push(String::from_str("restricted"));
        v
    };
    let levels: &Vec<String> = match &data.filter {
        Some(DataFilter::Include(ls)) => ls,
        None => &default_levels,
    };
    proof {
        assert(levels.deep_view() =~= spec_filter_levels(data@));
    }
    let ghost csv = cs@.map_values(|c: crate::state::FileConstraint| c@);
    let ghost lv = spec_filter_levels(data@);
    let mut r: Vec<DataItem> = Vec::new();
    let mut i: usize = 0;
    proof {
        assert(items_views(r@) =~= spec_constraint_items(csv.subrange(0, 0), lv));
    }
    while i < cs.len()
        invariant
            0 <= i <= cs@.len(),
            csv == cs@.map_values(|c: crate::state::FileConstraint| c@),
            lv == levels.deep_view(),
            lv == spec_filter_levels(data@),
            items_views(r@) == spec_constraint_items(csv.subrange(0, i as int), lv),
        decreases cs@.len() - i,
    {
        proof {
            let pre = csv.subrange(0, i as int);
            let post = csv.subrange(0, i + 1);
            assert(post.drop_last() =~= pre);
            assert(post.last() == csv[i as int]);
        }
        let c = &cs[i];
        match &c.mutation {
            Some(m) => {
                if crate::state::contains_string(levels, level_name_str(m.level)) {
                    let mut fields: Vec<(String, FieldValue)> = Vec::new();
                    fields.push((String::from_str("path"), FieldValue::Text(c.path.clone())));
                    fields.push((
                        String::from_str("level"),
                        FieldValue::Text(String::from_str(level_name_str(m.level))),
                    ));
                    match &m.reason {
                        Some(rs) => {
                            fields.push((
                                String::from_str("reason"),
                                FieldValue::Text(rs.clone()),
                            ));
                        },
                        None => {},
                    }
                    let item = DataItem { fields };
                    proof {
                        assert(item@ =~= constraint_item(csv[i as int]));
                    }
                    r.push(item);
                    proof {
                        assert(items_views(r@) =~= spec_constraint_items(
                            csv.subrange(0, i + 1),
                            lv,
                        ));
                    }
                }
            },
            None => {},
        }
        i += 1;
    }
    proof {
        assert(csv.subrange(0, cs@.len() as int) =~= csv);
    }
    r
}

#[verifier::loop_isolation(false)]
fn count_layer_files(cache: &Cache, l: &str) -> (r: usize)
    ensures
        r as int == count_layer(cache@.files, l@),
{
    let mut r: usize = 0;
    let mut i: usize = 0;
    let ghost fv = cache@.files;
    proof {
        assert(count_layer(fv.subrange(0, 0), l@) == 0);
    }
    while i < cache.files.len()
        invariant
            0 <= i <= cache.files@.len(),
            fv == cache@.files,
            r as int == count_layer(fv.subrange(0, i as int), l@),
            r <= i,
        decreases cache.files@.len() - i,
    {
        proof {
            let pre = fv.subrange(0, i as int);
            let post = fv.subrange(0, i + 1);
            assert(post.drop_last() =~= pre);
            assert(post.last() == fv[i as int]);
        }
        match &cache.files[i].layer {
            Some(fl) => {
                if str_eq(fl.as_str(), l) {
                    r += 1;
                }
            },
            None => {},
        }
        i += 1;
    }
    proof {
        assert(fv.subrange(0, cache.files@.len() as int) =~= fv);
    }
    r
}

#[verifier::loop_isolation(false)]
fn extract_layers(cache: &Cache) -> (r: Vec<DataItem>)
    ensures
        items_views(r@) == spec_extract_layers(cache@),
{
    // the distinct layer names in order of first appearance
    let mut names: Vec<String> = Vec::new();
    let mut i: usize = 0;
    while i < cache.files.len()
        invariant
            0 <= i <= cache.files@.len(),
            names.deep_view() == spec_layer_names(cache@.files.subrange(0, i as int)),
        decreases cache.files@.len() - i,
    {
        proof {
            let pre = cache@.files.subrange(0, i as int);
            let post = cache@.files.subrange(0, i + 1);
            assert(post.drop_last() =~= pre);
            assert(post.last() == cache@.files[i as int]);
        }
        match &cache.files[i].layer {
            Some(l) => {
                if !crate::state::contains_string(&names, l.as_str()) {
                    names.push(l.clone());
                    proof {
                        assert(names.deep_view() =~= spec_layer_names(
                            cache@.files.subrange(0, i + 1),
                        ));
                    }
                }
            },
            None => {},
        }
        i += 1;
    }
    proof {
        assert(cache@.files.subrange(0, cache.files@.len() as int) =~= cache@.files);
    }
    let mut r: Vec<DataItem> = Vec::new();
    let mut j: usize = 0;
    proof {
        assert(items_views(r@) =~= spec_extract_layers(cache@).subrange(0, 0));
    }
    while j < names.len()
        invariant
            0 <= j <= names@.len(),
            names.deep_view() == spec_layer_names(cache@.files),
            r@.len() == j,
            items_views(r@) == spec_extract_layers(cache@).subrange(0, j as int),
        decreases names@.len() - j,
    {
        let count = count_layer_files(cache, names[j].as_str());
        let mut fields: Vec<(String, FieldValue)> = Vec::new();
        fields.push((String::from_str("name"), FieldValue::Text(names[j].clone())));
        fields.push((String::from_str("fileCount"), FieldValue::Num(count as u64)));
        let item = DataItem { fields };
        proof {
            assert(names.deep_view()[j as int] == names@[j as int]@);
            assert(item@ =~= spec_extract_layers(cache@)[j as int]);
        }
        r.push(item);
        proof {
            assert(items_views(r@) =~= spec_extract_layers(cache@).subrange(0, j + 1));
        }
        j += 1;
    }
    proof {
        assert(names@.len() == spec_extract_layers(cache@).len());
        assert(spec_extract_layers(cache@).subrange(0, names@.len() as int) =~= spec_extract_layers(
            cache@,
        ));
    }
    r
}

fn is_entry_path_exec(path: &str) -> (r: bool)
    ensures
        r == is_entry_path(path@),
{
    crate::strutil::ends_with_lower(path, "main.rs") || crate::strutil::ends_with_lower(
        path,
        "main.ts",
    ) || crate::strutil::ends_with_lower(path, "main.py") || crate::strutil::ends_with_lower(
        path,
        "index.ts",
    ) || crate::strutil::ends_with_lower(path, "index.js") || crate::strutil::ends_with_lower(
        path,
        "app.ts",
    ) || crate::strutil::ends_with_lower(path, "app.py") || crate::strutil::ends_with_lower(
        path,
        "mod.rs",
    ) || (crate::strutil::contains_lower(path, "/src/") && crate::strutil::ends_with_lower(
        path,
        ".rs",
    ))
}

#[verifier::loop_isolation(false)]
fn extract_entry_points(cache: &Cache) -> (r: Vec<DataItem>)
    ensures
        items_views(r@) == spec_take_entries(cache@.files, 10),
{
    let mut r: Vec<DataItem> = Vec::new();
    let mut i: usize = 0;
    let ghost fv = cache@.files;
    proof {
        assert(fv.subrange(0, fv.len() as int) =~= fv);
    }
    while i < cache.files.len()
        invariant
            0 <= i <= cache.files@.len(),
            fv == cache@.files,
            r@.len() <= 10,
            spec_take_entries(fv, 10) == items_views(r@) + spec_take_entries(
                fv.subrange(i as int, fv.len() as int),
                10 - r@.len(),
            ),
        decreases cache.files@.len() - i,
    {
        if r.len() >= 10 {
            proof {
                assert(spec_take_entries(fv.subrange(i as int, fv.len() as int), 0)
                    =~= Seq::<ItemView>::empty());
                assert(spec_take_entries(fv, 10) =~= items_views(r@));
            }
            break;
        }
        proof {
            let rest = fv.subrange(i as int, fv.len() as int);
            assert(rest[0] == fv[i as int]);
            assert(rest.drop_first() =~= fv.subrange(i + 1, fv.len() as int));
        }
        let f = &cache.files[i];
        if is_entry_path_exec(f.path.as_str()) {
            let mut fields: Vec<(String, FieldValue)> = Vec::new();
            fields.push((String::from_str("path"), FieldValue::Text(f.path.clone())));
            fields.push((String::from_str("type"), FieldValue::Text(f.language.clone())));
            let item = DataItem { fields };
            proof {
                assert(item@ =~= entry_item(fv[i as int]));
            }
            let ghost r0 = r@;
            r.push(item);
            proof {
                assert(items_views(r@) =~= items_views(r0) + seq![entry_item(fv[i as int])]);
                assert(items_views(r0) + (seq![entry_item(fv[i as int])] + spec_take_entries(
                    fv.subrange(i + 1, fv.len() as int),
                    10 - r@.len(),
                )) =~= items_views(r@) + spec_take_entries(
                    fv.subrange(i + 1, fv.len() as int),
                    10 - r@.len(),
                ));
            }
        }
        i += 1;
    }
    proof {
        if i >= cache.files@.len() {
            assert(fv.subrange(fv.len() as int, fv.len() as int) =~= Seq::<FileView>::empty());
            assert(spec_take_entries(fv.subrange(fv.len() as int, fv.len() as int), 10 - r@.len())
                =~= Seq::<ItemView>::empty());
            assert(spec_take_entries(fv, 10) =~= items_views(r@));
        }
    }
    r
}

/// The item list a data binding yields: extraction by source, the
/// declared sort, then the item cap.
pub open spec fn spec_items_for(d: DataView, cache: CacheView) -> Seq<ItemView> {
    let base = if d.source == "cache.domains"@ {
        spec_extract_domains(cache)
    } else if d.source == "cache.constraints.by_lock_level"@ {
        spec_extract_constraints(cache, d)
    } else if d.source == "cache.layers"@ {
        spec_extract_layers(cache)
    } else if d.source == "cache.entryPoints"@ {
        spec_take_entries(cache.files, 10)
    } else {
        Seq::empty()
    };
    let sorted = match d.sort_by {
        Some(key) => spec_sort_items(base, key, d.sort_order),
        None => base,
    };
    match d.max_items {
        Some(m) => if sorted.len() > m {
            sorted.subrange(0, m as int)
        } else {
            sorted
        },
        None => sorted,
    }
}

/// Extracts, sorts and caps the items of a data binding.
#[verifier::loop_isolation(false)]
fn extract_data(data: &crate::types::SectionData, cache: &Cache) -> (r: Vec<DataItem>)
    ensures
        items_views(r@) == spec_items_for(data@, cache@),
{
    let base: Vec<DataItem> = if str_eq(data.source.as_str(), "cache.domains") {
        extract_domains(cache)
    } else if str_eq(data.source.as_str(), "cache.constraints.by_lock_level") {
        extract_constraints(cache, data)
    } else if str_eq(data.source.as_str(), "cache.layers") {
        extract_layers(cache)
    } else if str_eq(data.source.as_str(), "cache.entryPoints") {
        extract_entry_points(cache)
    } else {
        let v: Vec<DataItem> = Vec::new();
        proof {
            assert(items_views(v@) =~= Seq::<ItemView>::empty());
        }
        v
    };
    let mut sorted: Vec<DataItem> = match &data.sort_by {
        Some(key) => sort_items(base, key.as_str(), data.sort_order),
        None => base,
    };
    match data.max_items {
        Some(m) => {
            if sorted.len() > m {
                let ghost pre = items_views(sorted@);
                sorted.truncate(m);
                proof {
                    assert(items_views(sorted@) =~= pre.subrange(0, m as int));
                }
            }
        },
        None => {},
    }
    sorted
}


/// Every item rendered through the item template, or `None` as soon as
/// one substitution fails.
pub open spec fn spec_render_items(items: Seq<ItemView>, tpl: Seq<char>) -> Option<Seq<Seq<char>>>
    decreases items.len(),
{
    if items.len() == 0 {
        Some(Seq::empty())
    } else {
        match spec_render_items(items.drop_last(), tpl) {
            Some(prev) => match hb_subst(tpl, item_strings(items.last())) {
                Some(s) => Some(prev.push(s)),
                None => None,
            },
            None => None,
        }
    }
}

/// What a data-bound section renders to: on empty data its empty
/// policy decides; otherwise each item goes through the item template
/// and the results are joined between header and footer.
pub open spec fn spec_render_dynamic(t: TemplateView, d: DataView, cache: CacheView) -> Option<
    Seq<char>,
> {
    let items = spec_items_for(d, cache);
    if items.len() == 0 {
        match d.empty_behavior {
            EmptyBehavior::Exclude => Some(Seq::empty()),
            EmptyBehavior::Placeholder => Some(
                match t.empty_template {
                    Some(e) => e,
                    None => Seq::empty(),
                },
            ),
            EmptyBehavior::Error => None,
        }
    } else {
        let rendered = match t.item_template {
            Some(it) => spec_render_items(items, it),
            None => Some(Seq::empty()),
        };
        match rendered {
            Some(rs) => Some(
                (match t.header {
                    Some(h) => h,
                    None => Seq::empty(),
                }) + join_seqs(rs, t.separator) + (match t.footer {
                    Some(f) => f,
                    None => Seq::empty(),
                }),
            ),
            None => None,
        }
    }
}

/// What one section renders to under a format, or `None` when the
/// format has no template for it or the section fails.
pub open spec fn spec_render_section(s: SectionView, cache: CacheView, fmt: OutputFormat) -> Option<
    Seq<char>,
> {
    match s.formats.spec_get(fmt) {
        None => None,
        Some(t) => match s.data {
            Some(d) => spec_render_dynamic(t, d, cache),
            None => Some(
                match t.template {
                    Some(b) => b,
                    None => Seq::empty(),
                },
            ),
        },
    }
}

/// The joining separator of each format.
pub open spec fn spec_format_sep(fmt: OutputFormat) -> Seq<char> {
    match fmt {
        OutputFormat::Markdown => "\n\n"@,
        OutputFormat::Compact => " | "@,
        OutputFormat::Json => ",\n"@,
    }
}

/// The non-empty renderings of the sections, in order; a failing
/// section contributes nothing.
pub open spec fn spec_render_parts(
    sections: Seq<crate::types::SelectedView>,
    cache: CacheView,
    fmt: OutputFormat,
) -> Seq<Seq<char>>
    decreases sections.len(),
{
    if sections.len() == 0 {
        Seq::empty()
    } else {
        let prev = spec_render_parts(sections.drop_last(), cache, fmt);
        match spec_render_section(sections.last().section, cache, fmt) {
            Some(x) => if x.len() > 0 {
                prev.push(x)
            } else {
                prev
            },
            None => prev,
        }
    }
}

/// The whole document: the parts joined with the format's separator,
/// wrapped in array brackets for the structured format.
pub open spec fn spec_render(
    sections: Seq<crate::types::SelectedView>,
    cache: CacheView,
    fmt: OutputFormat,
) -> Seq<char> {
    let body = join_seqs(spec_render_parts(sections, cache, fmt), spec_format_sep(fmt));
    if fmt == OutputFormat::Json {
        "[\n"@ + body + "\n]"@
    } else {
        body
    }
}

/// The ways one section can fail to render.
#[derive(Debug, Clone, Copy, PartialEq, Eq, Structural)]
pub enum RenderFailure {
    /// The active format has no template for the section.
    MissingTemplate,
    /// The data list is empty under the error policy.
    EmptyRequired,
    /// An item's template substitution failed.
    Substitution,
}

/// Why one section fails to render, if it does: exactly when the
/// active format lacks a template, the data is empty under the error
/// policy, or an item substitution fails.
pub open spec fn spec_render_failure(s: SectionView, cache: CacheView, fmt: OutputFormat) -> Option<
    RenderFailure,
> {
    match s.formats.spec_get(fmt) {
        None => Some(RenderFailure::MissingTemplate),
        Some(t) => match s.data {
            None => None,
            Some(d) => {
                let items = spec_items_for(d, cache);
                if items.len() == 0 {
                    if d.empty_behavior == EmptyBehavior::Error {
                        Some(RenderFailure::EmptyRequired)
                    } else {
                        None
                    }
                } else {
                    match t.item_template {
                        Some(it) => if spec_render_items(items, it) is None {
                            Some(RenderFailure::Substitution)
                        } else {
                            None
                        },
                        None => None,
                    }
                }
            },
        },
    }
}

/// Renderer for primer sections.
pub struct PrimerRenderer {
    pub format: OutputFormat,
}

impl PrimerRenderer {
    pub fn new(format: OutputFormat) -> (r: Self)
        ensures
            r.format == format,
    {
        PrimerRenderer { format }
    }

    /// Renders a single section, as `spec_render_section` describes;
    /// each error names its cause.
    pub fn render_section(&self, section: &PrimerSection, cache: &Cache) -> (r: Result<
        String,
        RenderError,
    >)
        ensures
            match r {
                Ok(s) => spec_render_section(section@, cache@, self.format) == Some(s@)
                    && spec_render_failure(section@, cache@, self.format) is None,
                Err(e) => spec_render_section(section@, cache@, self.format) is None && match e {
                    RenderError::MissingFormat(f) => f == self.format && spec_render_failure(
                        section@,
                        cache@,
                        self.format,
                    ) == Some(RenderFailure::MissingTemplate),
                    RenderError::EmptyData(id) => id@ == section@.id && spec_render_failure(
                        section@,
                        cache@,
                        self.format,
                    ) == Some(RenderFailure::EmptyRequired),
                    RenderError::Template(_) => spec_render_failure(
                        section@,
                        cache@,
                        self.format,
                    ) == Some(RenderFailure::Substitution),
                },
            },
    {
        let template = match section.formats.get(self.format) {
            Some(t) => t,
            None => {
                return Err(RenderError::MissingFormat(self.format));
            },
        };
        match &section.data {
            Some(data) => self.render_dynamic_section(section, template, data, cache),
            None => match &template.template {
                Some(tpl) => Ok(tpl.clone()),
                None => {
                    let s = String::new();
                    proof {
                        assert(s@ =~= Seq::<char>::empty());
                    }
                    Ok(s)
                },
            },
        }
    }

    /// Renders a template against a flat map of string fields, exactly
    /// as the template engine defines it.
    pub fn render_template(&self, template: &str, data: &Vec<(String, String)>) -> (r: Result<
        String,
        RenderError,
    >)
        ensures
            match r {
                Ok(s) => hb_subst(template@, data.deep_view()) == Some(s@),
                Err(_) => hb_subst(template@, data.deep_view()) is None,
            },
    {
        match hb_render(template, data) {
            Some(s) => Ok(s),
            None => Err(RenderError::Template(String::from_str("substitution failed"))),
        }
    }

    /// Renders a data-bound section, as `spec_render_dynamic` describes.
    #[verifier::loop_isolation(false)]
    fn render_dynamic_section(
        &self,
        section: &PrimerSection,
        template: &crate::types::FormatTemplate,
        data: &crate::types::SectionData,
        cache: &Cache,
    ) -> (r: Result<String, RenderError>)
        ensures
            match r {
                Ok(s) => spec_render_dynamic(template@, data@, cache@) == Some(s@),
                Err(e) => spec_render_dynamic(template@, data@, cache@) is None && match e {
                    RenderError::EmptyData(id) => id@ == section@.id && spec_items_for(
                        data@,
                        cache@,
                    ).len() == 0 && data@.empty_behavior == EmptyBehavior::Error,
                    RenderError::Template(_) => spec_items_for(data@, cache@).len() > 0 && (
                    template@.item_template matches Some(it) && spec_render_items(
                        spec_items_for(data@, cache@),
                        it,
                    ) is None),
                    RenderError::MissingFormat(_) => false,
                },
            },
    {
        let items = extract_data(data, cache);
        let ghost iv = items_views(items@);
        if items.len() == 0 {
            proof {
                assert(iv.len() == 0);
            }
            return match data.empty_behavior {
                EmptyBehavior::Exclude => {
                    let s = String::new();
                    proof {
                        assert(s@ =~= Seq::<char>::empty());
                    }
                    Ok(s)
                },
                EmptyBehavior::Placeholder => match &template.empty_template {
                    Some(e) => Ok(e.clone()),
                    None => {
                        let s = String::new();
                        proof {
                            assert(s@ =~= Seq::<char>::empty());
                        }
                        Ok(s)
                    },
                },
                EmptyBehavior::Error => Err(RenderError::EmptyData(section.id.clone())),
            };
        }
        let mut rendered: Vec<String> = Vec::new();
        match &template.item_template {
            Some(item_tpl) => {
                let mut i: usize = 0;
                proof {
                    assert(spec_render_items(iv.subrange(0, 0), item_tpl@) == Some(Seq::<
                        Seq<char>,
                    >::empty()));
                    assert(rendered.deep_view() =~= Seq::<Seq<char>>::empty());
                }
                while i < items.len()
                    invariant
                        0 <= i <= items@.len(),
                        iv == items_views(items@),
                        spec_render_items(iv.subrange(0, i as int), item_tpl@) == Some(
                            rendered.deep_view(),
                        ),
                    decreases items@.len() - i,
                {
                    proof {
                        let pre = iv.subrange(0, i as int);
                        let post = iv.subrange(0, i + 1);
                        assert(post.drop_last() =~= pre);
                        assert(post.last() == iv[i as int]);
                    }
                    let strings = item_to_strings(&items[i]);
                    match hb_render(item_tpl.as_str(), &strings) {
                        Some(s) => {
                            rendered.push(s);
                            proof {
                                assert(rendered.deep_view() =~= spec_render_items(
                                    iv.subrange(0, i + 1),
                                    item_tpl@,
                                )->Some_0);
                            }
                        },
                        None => {
                            proof {
                                lemma_render_items_fail(iv, item_tpl@, i as int);
                            }
                            return Err(
                                RenderError::Template(String::from_str("substitution failed")),
                            );
                        },
                    }
                    i += 1;
                }
                proof {
                    assert(iv.subrange(0, items@.len() as int) =~= iv);
                }
            },
            None => {
                proof {
                    assert(rendered.deep_view() =~= Seq::<Seq<char>>::empty());
                }
            },
        }
        let mut out = String::new();
        match &template.header {
            Some(h) => {
                out.append(h.as_str());
            },
            None => {},
        }
        let ghost head = out@;
        let body = join_strings(&rendered, template.separator.as_str());
        out.append(body.as_str());
        match &template.footer {
            Some(f) => {
                out.append(f.as_str());
            },
            None => {},
        }
        proof {
            assert(Seq::<char>::empty() + head =~= head);
        }
        Ok(out)
    }

    /// Renders every selected section and joins the non-empty results,
    /// as `spec_render` describes.  Rendering a document never fails:
    /// a failing section is simply left out.
    #[verifier::loop_isolation(false)]
    pub fn render(&self, sections: &Vec<SelectedSection>, cache: &Cache) -> (r: Result<
        String,
        RenderError,
    >)
        ensures
            r matches Ok(s) && s@ == spec_render(
                crate::selection::sel_views(sections@),
                cache@,
                self.format,
            ),
    {
        let ghost sv = crate::selection::sel_views(sections@);
        let separator: &str = match self.format {
            OutputFormat::Markdown => "\n\n",
            OutputFormat::Compact => " | ",
            OutputFormat::Json => ",\n",
        };
        let mut parts: Vec<String> = Vec::new();
        let mut i: usize = 0;
        proof {
            assert(parts.deep_view() =~= spec_render_parts(
                sv.subrange(0, 0),
                cache@,
                self.format,
            ));
        }
        while i < sections.len()
            invariant
                0 <= i <= sections@.len(),
                sv == crate::selection::sel_views(sections@),
                parts.deep_view() == spec_render_parts(
                    sv.subrange(0, i as int),
                    cache@,
                    self.format,
                ),
            decreases sections@.len() - i,
        {
            proof {
                let pre = sv.subrange(0, i as int);
                let post = sv.subrange(0, i + 1);
                assert(post.drop_last() =~= pre);
                assert(post.last() == sv[i as int]);
            }
            match self.render_section(&sections[i].section, cache) {
                Ok(s) => {
                    if s.as_str().unicode_len() > 0 {
                        parts.push(s);
                        proof {
                            assert(parts.deep_view() =~= spec_render_parts(
                                sv.subrange(0, i + 1),
                                cache@,
                                self.format,
                            ));
                        }
                    }
                },
                Err(_) => {},
            }
            i += 1;
        }
        proof {
            assert(sv.subrange(0, sections@.len() as int) =~= sv);
        }
        let body = join_strings(&parts, separator);
        match self.format {
            OutputFormat::Json => {
                let mut out = String::from_str("[\n");
                out.append(body.as_str());
                out.append("\n]");
                Ok(out)
            },
            _ => Ok(body),
        }
    }
}

proof fn lemma_render_items_fail(items: Seq<ItemView>, tpl: Seq<char>, i: int)
    requires
        0 <= i < items.len(),
        hb_subst(tpl, item_strings(items[i])) is None,
    ensures
        spec_render_items(items, tpl) is None,
    decreases items.len(),
{
    if items.len() > 0 {
        if i == items.len() - 1 {
            assert(items.last() == items[i]);
        } else {
            assert(items.drop_last()[i] == items[i]);
            lemma_render_items_fail(items.drop_last(), tpl, i);
        }
    }
}


/// Rendering is deterministic: the document is a function of the
/// selected sections, the cache snapshot and the output format.  This
/// is the rendering stage of the pipeline's idempotence.
pub proof fn lemma_rendering_deterministic(
    a: Seq<char>,
    b: Seq<char>,
    sections: Seq<crate::types::SelectedView>,
    cache: CacheView,
    format: OutputFormat,
)
    requires
        a == spec_render(sections, cache, format),
        b == spec_render(sections, cache, format),
    ensures
        a == b,
{
}

} // verus!
