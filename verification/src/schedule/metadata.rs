//! The metadata of processed GTFS archives, a JSON document, and how the metadata of
//! several archives is merged.
//!
//! Merging reads the document's top-level object, the arrays and objects held under
//! its keys, and the arrays held under the keys of those objects. Values nested
//! deeper are carried along unread, as their JSON text.
use vstd::prelude::*;
use vstd::string::*;

use crate::text::{chars_eq, chars_of};

verus! {

/// A JSON number: a non-negative integer, a negative integer, or any other number as
/// its JSON text.
#[derive(Clone, Debug, PartialEq, Eq)]
pub enum JsonNumber {
    PosInt(u64),
    NegInt(i64),
    Float(String),
}

/// A value under a key of an object held in the metadata.
#[derive(Clone, Debug, PartialEq, Eq)]
pub enum InnerValue {
    Number(JsonNumber),
    /// an array of values, each as JSON text
    Array(Vec<String>),
    /// any other value, as JSON text
    Other(String),
}

/// A value under a top-level key of the metadata.
#[derive(Clone, Debug, PartialEq, Eq)]
pub enum FieldValue {
    Number(JsonNumber),
    /// an array of values, each as JSON text
    Array(Vec<String>),
    /// an object; a later entry for a key overrides an earlier one
    Object(Vec<(String, InnerValue)>),
    /// any other value, as JSON text
    Other(String),
}

/// A metadata document.
#[derive(Clone, Debug, PartialEq, Eq)]
pub enum Metadata {
    Null,
    /// the top-level object; a later entry for a key overrides an earlier one
    Object(Vec<(String, FieldValue)>),
    /// a top-level array
    Array(Vec<MetadataItem>),
    /// any other value, as JSON text
    Other(String),
}

/// An element of a top-level array.
#[derive(Clone, Debug, PartialEq, Eq)]
pub enum MetadataItem {
    /// an object; a later entry for a key overrides an earlier one
    Object(Vec<(String, FieldValue)>),
    /// any other value, as JSON text
    Other(String),
}

/// A number as plain values.
pub enum NumberView {
    PosInt(u64),
    NegInt(i64),
    Float(Seq<char>),
}

/// An inner value as plain values.
pub enum InnerView {
    Number(NumberView),
    Array(Seq<Seq<char>>),
    Other(Seq<char>),
}

/// A field value as plain values.
pub enum FieldView {
    Number(NumberView),
    Array(Seq<Seq<char>>),
    Object(Map<Seq<char>, InnerView>),
    Other(Seq<char>),
}

/// The texts of a list of strings.
pub open spec fn texts(v: Seq<String>) -> Seq<Seq<char>> {
    v.map_values(|s: String| s@)
}

pub open spec fn number_view(n: JsonNumber) -> NumberView {
    match n {
        JsonNumber::PosInt(u) => NumberView::PosInt(u),
        JsonNumber::NegInt(i) => NumberView::NegInt(i),
        JsonNumber::Float(t) => NumberView::Float(t@),
    }
}

pub open spec fn inner_view(v: InnerValue) -> InnerView {
    match v {
        InnerValue::Number(n) => InnerView::Number(number_view(n)),
        InnerValue::Array(a) => InnerView::Array(texts(a@)),
        InnerValue::Other(t) => InnerView::Other(t@),
    }
}

/// The map of a list of keyed entries, a later entry for a key overriding an earlier
/// one.
pub open spec fn inner_map(entries: Seq<(String, InnerValue)>) -> Map<Seq<char>, InnerView>
    decreases entries.len(),
{
    if entries.len() == 0 {
        Map::empty()
    } else {
        inner_map(entries.drop_last()).insert(
            entries.last().0@,
            inner_view(entries.last().1),
        )
    }
}

pub open spec fn field_view(v: FieldValue) -> FieldView {
    match v {
        FieldValue::Number(n) => FieldView::Number(number_view(n)),
        FieldValue::Array(a) => FieldView::Array(texts(a@)),
        FieldValue::Object(e) => FieldView::Object(inner_map(e@)),
        FieldValue::Other(t) => FieldView::Other(t@),
    }
}

/// The map of a list of keyed fields, a later entry for a key overriding an earlier
/// one.
pub open spec fn field_map(entries: Seq<(String, FieldValue)>) -> Map<Seq<char>, FieldView>
    decreases entries.len(),
{
    if entries.len() == 0 {
        Map::empty()
    } else {
        field_map(entries.drop_last()).insert(entries.last().0@, field_view(entries.last().1))
    }
}

/// The top-level object a document stands for in a merge: the object itself, or the
/// object that a one-element array holds.
pub open spec fn as_top_object(m: Metadata) -> Option<Seq<(String, FieldValue)>> {
    match m {
        Metadata::Object(e) => Some(e@),
        Metadata::Array(items) => if items@.len() == 1 && items@[0] is Object {
            Some(items@[0]->Object_0@)
        } else {
            None
        },
        _ => None,
    }
}

/// `serde_json::Value::as_i64` of a number: integers that fit in `i64`.
pub open spec fn number_as_i64(n: NumberView) -> Option<i64> {
    match n {
        NumberView::PosInt(u) => if u <= i64::MAX {
            Some(u as i64)
        } else {
            None
        },
        NumberView::NegInt(i) => Some(i),
        NumberView::Float(_) => None,
    }
}

/// `serde_json::Value::as_u64` of a number: non-negative integers.
pub open spec fn number_as_u64(n: NumberView) -> Option<u64> {
    match n {
        NumberView::PosInt(u) => Some(u),
        _ => None,
    }
}

/// The whole seconds of a duration object, 0 where absent or not an `i64`.
pub open spec fn duration_secs(m: Map<Seq<char>, InnerView>) -> int {
    if m.contains_key("secs"@) && m["secs"@] is Number && number_as_i64(
        m["secs"@]->Number_0,
    ) is Some {
        number_as_i64(m["secs"@]->Number_0)->Some_0 as int
    } else {
        0
    }
}

/// The nanoseconds of a duration object, 0 where absent or not a `u64`.
pub open spec fn duration_nanos(m: Map<Seq<char>, InnerView>) -> int {
    if m.contains_key("nanos"@) && m["nanos"@] is Number && number_as_u64(
        m["nanos"@]->Number_0,
    ) is Some {
        number_as_u64(m["nanos"@]->Number_0)->Some_0 as int
    } else {
        0
    }
}

/// The duration object a field stands for: its entries if it is an object, none
/// otherwise.
pub open spec fn duration_of(f: Option<FieldView>) -> Map<Seq<char>, InnerView> {
    match f {
        Some(FieldView::Object(m)) => m,
        _ => Map::empty(),
    }
}

/// The sum of two durations fits the integer types of the sum.
pub open spec fn durations_add_ok(t: Map<Seq<char>, InnerView>, s: Map<Seq<char>, InnerView>) -> bool {
    &&& duration_nanos(t) + duration_nanos(s) <= u64::MAX
    &&& i64::MIN <= duration_secs(t) + duration_secs(s) <= i64::MAX
    &&& i64::MIN <= duration_secs(t) + duration_secs(s) + (duration_nanos(t) + duration_nanos(s))
        / 1_000_000_000 <= i64::MAX
}

/// The JSON integer a signed integer is written as.
pub open spec fn int_number(i: int) -> NumberView {
    if i >= 0 {
        NumberView::PosInt(i as u64)
    } else {
        NumberView::NegInt(i as i64)
    }
}

/// The sum of two durations as a duration object: nanoseconds carried into seconds.
pub open spec fn duration_sum(t: Map<Seq<char>, InnerView>, s: Map<Seq<char>, InnerView>) -> Map<
    Seq<char>,
    InnerView,
> {
    let total_nanos = duration_nanos(t) + duration_nanos(s);
    Map::empty().insert(
        "secs"@,
        InnerView::Number(
            int_number(duration_secs(t) + duration_secs(s) + total_nanos / 1_000_000_000),
        ),
    ).insert("nanos"@, InnerView::Number(NumberView::PosInt((total_nanos % 1_000_000_000) as u64)))
}

/// The calendar dates of two archives: for a service in both with arrays of dates,
/// the dates of both in order; otherwise the source's entry for a service it lists,
/// and the target's for one that only the target lists.
pub open spec fn calendar_dates_union(
    t: Map<Seq<char>, InnerView>,
    s: Map<Seq<char>, InnerView>,
) -> Map<Seq<char>, InnerView> {
    Map::new(
        |k: Seq<char>| t.contains_key(k) || s.contains_key(k),
        |k: Seq<char>|
            if s.contains_key(k) {
                if t.contains_key(k) && t[k] is Array && s[k] is Array {
                    InnerView::Array(t[k]->Array_0 + s[k]->Array_0)
                } else {
                    s[k]
                }
            } else {
                t[k]
            },
    )
}

/// The merge of one source field into the target's field under the same key:
/// - `agencies` and `feed_info` arrays are concatenated (a target array keeps its
///   items when the source's is no array; a target that is no array is replaced);
/// - `read_duration` durations are added;
/// - `calendar` objects are united, the source's entries overriding;
/// - `calendar_dates` objects are united as [`calendar_dates_union`] says;
/// - any other key keeps the target's value, or takes the source's when absent.
pub open spec fn merged_field(key: Seq<char>, target: Option<FieldView>, source: FieldView) -> FieldView {
    if key == "agencies"@ || key == "feed_info"@ {
        match target {
            Some(FieldView::Array(t)) => match source {
                FieldView::Array(s) => FieldView::Array(t + s),
                _ => FieldView::Array(t),
            },
            _ => source,
        }
    } else if key == "read_duration"@ {
        FieldView::Object(
            duration_sum(
                duration_of(target),
                duration_of(Some(source)),
            ),
        )
    } else if key == "calendar"@ {
        match target {
            Some(FieldView::Object(t)) => match source {
                FieldView::Object(s) => FieldView::Object(t.union_prefer_right(s)),
                _ => FieldView::Object(t),
            },
            _ => source,
        }
    } else if key == "calendar_dates"@ {
        match target {
            Some(FieldView::Object(t)) => match source {
                FieldView::Object(s) => FieldView::Object(calendar_dates_union(t, s)),
                _ => FieldView::Object(t),
            },
            _ => source,
        }
    } else {
        match target {
            Some(t) => t,
            None => source,
        }
    }
}

/// The merge of two top-level objects, key by key as [`merged_field`] says; keys only
/// in the target keep their values.
pub open spec fn merged_objects(
    t: Map<Seq<char>, FieldView>,
    s: Map<Seq<char>, FieldView>,
) -> Map<Seq<char>, FieldView> {
    Map::new(
        |k: Seq<char>| t.contains_key(k) || s.contains_key(k),
        |k: Seq<char>|
            if s.contains_key(k) {
                merged_field(k, if t.contains_key(k) { Some(t[k]) } else { None }, s[k])
            } else {
                t[k]
            },
    )
}

/// A document as plain values.
pub enum MetadataView {
    Null,
    Object(Map<Seq<char>, FieldView>),
    Array(Seq<ItemView>),
    Other(Seq<char>),
}

/// An element of a top-level array as plain values.
pub enum ItemView {
    Object(Map<Seq<char>, FieldView>),
    Other(Seq<char>),
}

pub open spec fn item_view(i: MetadataItem) -> ItemView {
    match i {
        MetadataItem::Object(e) => ItemView::Object(field_map(e@)),
        MetadataItem::Other(t) => ItemView::Other(t@),
    }
}

pub open spec fn metadata_view(m: Metadata) -> MetadataView {
    match m {
        Metadata::Null => MetadataView::Null,
        Metadata::Object(e) => MetadataView::Object(field_map(e@)),
        Metadata::Array(items) => MetadataView::Array(items@.map_values(|i: MetadataItem| item_view(i))),
        Metadata::Other(t) => MetadataView::Other(t@),
    }
}

/// Whether two strings hold the same characters.
pub fn str_eq(a: &str, b: &str) -> (r: bool)
    ensures
        r == (a@ == b@),
{
    let ca = chars_of(a);
    let cb = chars_of(b);
    chars_eq(&ca, &cb)
}

/// A copy of a list of texts.
pub fn copy_texts(v: &Vec<String>) -> (r: Vec<String>)
    ensures
        texts(r@) == texts(v@),
{
    let mut out: Vec<String> = Vec::new();
    let mut i: usize = 0;
    while i < v.len()
        invariant
            i <= v@.len(),
            out@.len() == i,
            forall|j: int| 0 <= j < i ==> #[trigger] out@[j]@ == v@[j]@,
        decreases v@.len() - i,
    {
        out.push(v[i].clone());
        i = i + 1;
    }
    proof {
        assert(texts(out@) =~= texts(v@));
    }
    out
}

/// Appends copies of a list of texts.
fn append_texts(out: &mut Vec<String>, v: &Vec<String>)
    ensures
        texts(final(out)@) == texts(old(out)@) + texts(v@),
{
    let ghost start = out@;
    let mut i: usize = 0;
    while i < v.len()
        invariant
            i <= v@.len(),
            out@.len() == start.len() + i,
            forall|j: int| 0 <= j < start.len() ==> #[trigger] out@[j] == start[j],
            forall|j: int| 0 <= j < i ==> #[trigger] out@[start.len() + j]@ == v@[j]@,
        decreases v@.len() - i,
    {
        out.push(v[i].clone());
        i = i + 1;
    }
    proof {
        assert forall|j: int| 0 <= j < out@.len() implies #[trigger] texts(out@)[j] == (texts(start)
            + texts(v@))[j] by {
            if j >= start.len() {
                let k = j - start.len();
                assert(out@[start.len() + k]@ == v@[k]@);
            }
        }
        assert(texts(out@) =~= texts(start) + texts(v@));
    }
}

pub fn copy_number(n: &JsonNumber) -> (r: JsonNumber)
    ensures
        number_view(r) == number_view(*n),
{
    match n {
        JsonNumber::PosInt(u) => JsonNumber::PosInt(*u),
        JsonNumber::NegInt(i) => JsonNumber::NegInt(*i),
        JsonNumber::Float(t) => JsonNumber::Float(t.clone()),
    }
}

pub fn copy_inner(v: &InnerValue) -> (r: InnerValue)
    ensures
        inner_view(r) == inner_view(*v),
{
    match v {
        InnerValue::Number(n) => InnerValue::Number(copy_number(n)),
        InnerValue::Array(a) => InnerValue::Array(copy_texts(a)),
        InnerValue::Other(t) => InnerValue::Other(t.clone()),
    }
}

/// Appends copies of keyed inner entries.
fn append_inner_entries(out: &mut Vec<(String, InnerValue)>, e: &Vec<(String, InnerValue)>)
    ensures
        inner_map(final(out)@) == inner_map(old(out)@).union_prefer_right(inner_map(e@)),
{
    let ghost start = inner_map(out@);
    let mut i: usize = 0;
    while i < e.len()
        invariant
            i <= e@.len(),
            inner_map(out@) == start.union_prefer_right(inner_map(e@.subrange(0, i as int))),
        decreases e@.len() - i,
    {
        let ghost before = out@;
        out.push((e[i].0.clone(), copy_inner(&e[i].1)));
        proof {
            assert(e@.subrange(0, i + 1).drop_last() =~= e@.subrange(0, i as int));
            assert(out@.drop_last() =~= before);
            assert(inner_map(out@) =~= start.union_prefer_right(inner_map(e@.subrange(0, i + 1))));
        }
        i = i + 1;
    }
    proof {
        assert(e@.subrange(0, i as int) =~= e@);
    }
}

pub fn copy_field(v: &FieldValue) -> (r: FieldValue)
    ensures
        field_view(r) == field_view(*v),
{
    match v {
        FieldValue::Number(n) => FieldValue::Number(copy_number(n)),
        FieldValue::Array(a) => FieldValue::Array(copy_texts(a)),
        FieldValue::Object(e) => {
            let mut out: Vec<(String, InnerValue)> = Vec::new();
            append_inner_entries(&mut out, e);
            assert(inner_map(out@) =~= inner_map(e@));
            FieldValue::Object(out)
        },
        FieldValue::Other(t) => FieldValue::Other(t.clone()),
    }
}

/// Appends copies of keyed fields.
fn append_fields(out: &mut Vec<(String, FieldValue)>, e: &Vec<(String, FieldValue)>)
    ensures
        field_map(final(out)@) == field_map(old(out)@).union_prefer_right(field_map(e@)),
{
    let ghost start = field_map(out@);
    let mut i: usize = 0;
    while i < e.len()
        invariant
            i <= e@.len(),
            field_map(out@) == start.union_prefer_right(field_map(e@.subrange(0, i as int))),
        decreases e@.len() - i,
    {
        let ghost before = out@;
        out.push((e[i].0.clone(), copy_field(&e[i].1)));
        proof {
            assert(e@.subrange(0, i + 1).drop_last() =~= e@.subrange(0, i as int));
            assert(out@.drop_last() =~= before);
            assert(field_map(out@) =~= start.union_prefer_right(field_map(e@.subrange(0, i + 1))));
        }
        i = i + 1;
    }
    proof {
        assert(e@.subrange(0, i as int) =~= e@);
    }
}

pub fn copy_fields(e: &Vec<(String, FieldValue)>) -> (r: Vec<(String, FieldValue)>)
    ensures
        field_map(r@) == field_map(e@),
{
    let mut out: Vec<(String, FieldValue)> = Vec::new();
    append_fields(&mut out, e);
    assert(field_map(out@) =~= field_map(e@));
    out
}

pub fn copy_metadata(m: &Metadata) -> (r: Metadata)
    ensures
        metadata_view(r) == metadata_view(*m),
{
    match m {
        Metadata::Null => Metadata::Null,
        Metadata::Object(e) => Metadata::Object(copy_fields(e)),
        Metadata::Array(items) => {
            let mut out: Vec<MetadataItem> = Vec::new();
            let mut i: usize = 0;
            while i < items.len()
                invariant
                    i <= items@.len(),
                    out@.len() == i,
                    forall|j: int| 0 <= j < i ==> #[trigger] item_view(out@[j]) == item_view(items@[j]),
                decreases items@.len() - i,
            {
                let item = match &items[i] {
                    MetadataItem::Object(e) => MetadataItem::Object(copy_fields(e)),
                    MetadataItem::Other(t) => MetadataItem::Other(t.clone()),
                };
                out.push(item);
                i = i + 1;
            }
            proof {
                assert(out@.map_values(|i: MetadataItem| item_view(i)) =~= items@.map_values(
                    |i: MetadataItem| item_view(i),
                ));
            }
            Metadata::Array(out)
        },
        Metadata::Other(t) => Metadata::Other(t.clone()),
    }
}

/// The value of a key in a list of keyed fields is that of its last entry.
proof fn lemma_field_map_last(e: Seq<(String, FieldValue)>, k: Seq<char>)
    ensures
        field_map(e).contains_key(k) <==> exists|i: int| 0 <= i < e.len() && #[trigger] e[i].0@ == k,
        forall|i: int|
            0 <= i < e.len() && e[i].0@ == k && (forall|j: int| i < j < e.len() ==> e[j].0@ != k)
                ==> field_map(e)[k] == field_view(#[trigger] e[i].1),
    decreases e.len(),
{
    if e.len() > 0 {
        let p = e.drop_last();
        lemma_field_map_last(p, k);
        assert forall|i: int| 0 <= i < p.len() implies p[i] == e[i] by {}
        if field_map(p).contains_key(k) {
            let i = choose|i: int| 0 <= i < p.len() && #[trigger] p[i].0@ == k;
            assert(e[i].0@ == k);
        }
    }
}

/// The value of a key in a list of keyed inner entries is that of its last entry.
proof fn lemma_inner_map_last(e: Seq<(String, InnerValue)>, k: Seq<char>)
    ensures
        inner_map(e).contains_key(k) <==> exists|i: int| 0 <= i < e.len() && #[trigger] e[i].0@ == k,
        forall|i: int|
            0 <= i < e.len() && e[i].0@ == k && (forall|j: int| i < j < e.len() ==> e[j].0@ != k)
                ==> inner_map(e)[k] == inner_view(#[trigger] e[i].1),
    decreases e.len(),
{
    if e.len() > 0 {
        let p = e.drop_last();
        lemma_inner_map_last(p, k);
        assert forall|i: int| 0 <= i < p.len() implies p[i] == e[i] by {}
        if inner_map(p).contains_key(k) {
            let i = choose|i: int| 0 <= i < p.len() && #[trigger] p[i].0@ == k;
            assert(e[i].0@ == k);
        }
    }
}

/// The position of the last field with a key, if any.
fn find_field(e: &Vec<(String, FieldValue)>, key: &str) -> (r: Option<usize>)
    ensures
        r is None <==> !field_map(e@).contains_key(key@),
        r matches Some(i) ==> i < e@.len() && e@[i as int].0@ == key@ && field_map(e@)[key@]
            == field_view(e@[i as int].1),
{
    proof {
        lemma_field_map_last(e@, key@);
    }
    let mut i: usize = e.len();
    while i > 0
        invariant
            i <= e@.len(),
            forall|j: int| i <= j < e@.len() ==> e@[j].0@ != key@,
        decreases i,
    {
        i = i - 1;
        if str_eq(e[i].0.as_str(), key) {
            proof {
                lemma_field_map_last(e@, key@);
            }
            return Some(i);
        }
    }
    proof {
        lemma_field_map_last(e@, key@);
    }
    None
}

/// The position of the last inner entry with a key, if any.
fn find_inner(e: &Vec<(String, InnerValue)>, key: &str) -> (r: Option<usize>)
    ensures
        r is None <==> !inner_map(e@).contains_key(key@),
        r matches Some(i) ==> i < e@.len() && e@[i as int].0@ == key@ && inner_map(e@)[key@]
            == inner_view(e@[i as int].1),
{
    proof {
        lemma_inner_map_last(e@, key@);
    }
    let mut i: usize = e.len();
    while i > 0
        invariant
            i <= e@.len(),
            forall|j: int| i <= j < e@.len() ==> e@[j].0@ != key@,
        decreases i,
    {
        i = i - 1;
        if str_eq(e[i].0.as_str(), key) {
            proof {
                lemma_inner_map_last(e@, key@);
            }
            return Some(i);
        }
    }
    proof {
        lemma_inner_map_last(e@, key@);
    }
    None
}

/// The view of an optional field reference.
pub open spec fn opt_ref_view(f: Option<&FieldValue>) -> Option<FieldView> {
    match f {
        Some(v) => Some(field_view(*v)),
        None => None,
    }
}

/// The view of an optional field.
pub open spec fn opt_field_view(f: Option<FieldValue>) -> Option<FieldView> {
    match f {
        Some(v) => Some(field_view(v)),
        None => None,
    }
}

fn number_as_i64_exec(n: &JsonNumber) -> (r: Option<i64>)
    ensures
        r == number_as_i64(number_view(*n)),
{
    match n {
        JsonNumber::PosInt(u) => if *u <= 9_223_372_036_854_775_807u64 {
            Some(*u as i64)
        } else {
            None
        },
        JsonNumber::NegInt(i) => Some(*i),
        JsonNumber::Float(_) => None,
    }
}

fn number_as_u64_exec(n: &JsonNumber) -> (r: Option<u64>)
    ensures
        r == number_as_u64(number_view(*n)),
{
    match n {
        JsonNumber::PosInt(u) => Some(*u),
        _ => None,
    }
}

/// The seconds and nanoseconds of the duration a field holds.
fn duration_parts(f: Option<&FieldValue>) -> (r: (i64, u64))
    ensures
        r.0 == duration_secs(duration_of(opt_ref_view(f))),
        r.1 == duration_nanos(duration_of(opt_ref_view(f))),
{
    match f {
        Some(FieldValue::Object(e)) => {
            let secs: i64 = match find_inner(e, "secs") {
                Some(i) => match &e[i].1 {
                    InnerValue::Number(n) => match number_as_i64_exec(n) {
                        Some(v) => v,
                        None => 0,
                    },
                    _ => 0,
                },
                None => 0,
            };
            let nanos: u64 = match find_inner(e, "nanos") {
                Some(i) => match &e[i].1 {
                    InnerValue::Number(n) => match number_as_u64_exec(n) {
                        Some(v) => v,
                        None => 0,
                    },
                    _ => 0,
                },
                None => 0,
            };
            (secs, nanos)
        },
        _ => (0, 0),
    }
}

/// The JSON integer for a signed integer.
fn int_number_exec(i: i64) -> (r: JsonNumber)
    ensures
        number_view(r) == int_number(i as int),
{
    if i >= 0 {
        JsonNumber::PosInt(i as u64)
    } else {
        JsonNumber::NegInt(i)
    }
}

/// A united calendar dates object has one more source entry.
proof fn lemma_calendar_dates_union_insert(
    t: Map<Seq<char>, InnerView>,
    s: Map<Seq<char>, InnerView>,
    k: Seq<char>,
    v: InnerView,
)
    ensures
        calendar_dates_union(t, s.insert(k, v)) == calendar_dates_union(t, s).insert(
            k,
            if t.contains_key(k) && t[k] is Array && v is Array {
                InnerView::Array(t[k]->Array_0 + v->Array_0)
            } else {
                v
            },
        ),
{
    assert(calendar_dates_union(t, s.insert(k, v)) =~= calendar_dates_union(t, s).insert(
        k,
        if t.contains_key(k) && t[k] is Array && v is Array {
            InnerView::Array(t[k]->Array_0 + v->Array_0)
        } else {
            v
        },
    ));
}

/// Unites two calendar dates objects as [`calendar_dates_union`] says.
fn unite_calendar_dates(t: &Vec<(String, InnerValue)>, s: &Vec<(String, InnerValue)>) -> (r: Vec<
    (String, InnerValue),
>)
    ensures
        inner_map(r@) == calendar_dates_union(inner_map(t@), inner_map(s@)),
{
    let mut out: Vec<(String, InnerValue)> = Vec::new();
    append_inner_entries(&mut out, t);
    proof {
        assert(inner_map(s@.subrange(0, 0)) =~= Map::empty());
        assert(inner_map(out@) =~= calendar_dates_union(inner_map(t@), Map::empty()));
    }
    let mut j: usize = 0;
    while j < s.len()
        invariant
            j <= s@.len(),
            inner_map(out@) == calendar_dates_union(inner_map(t@), inner_map(s@.subrange(0, j as int))),
        decreases s@.len() - j,
    {
        let key = &s[j].0;
        let value: InnerValue = match (find_inner(t, key.as_str()), &s[j].1) {
            (Some(ti), InnerValue::Array(sa)) => match &t[ti].1 {
                InnerValue::Array(ta) => {
                    let mut joined = copy_texts(ta);
                    append_texts(&mut joined, sa);
                    InnerValue::Array(joined)
                },
                _ => copy_inner(&s[j].1),
            },
            _ => copy_inner(&s[j].1),
        };
        let ghost before = out@;
        out.push((key.clone(), value));
        proof {
            assert(out@.drop_last() =~= before);
            assert(s@.subrange(0, j + 1).drop_last() =~= s@.subrange(0, j as int));
            lemma_calendar_dates_union_insert(
                inner_map(t@),
                inner_map(s@.subrange(0, j as int)),
                s@[j as int].0@,
                inner_view(s@[j as int].1),
            );
        }
        j = j + 1;
    }
    proof {
        assert(s@.subrange(0, j as int) =~= s@);
    }
    out
}

/// The merge of a source field into the target's field under the same key, as
/// [`merged_field`] states it.
fn merge_field_value(key: &str, target: Option<&FieldValue>, source: &FieldValue) -> (r: FieldValue)
    requires
        key@ == "read_duration"@ ==> durations_add_ok(
            duration_of(opt_ref_view(target)),
            duration_of(Some(field_view(*source))),
        ),
    ensures
        field_view(r) == merged_field(key@, opt_ref_view(target), field_view(*source)),
{
    if str_eq(key, "agencies") || str_eq(key, "feed_info") {
        match target {
            Some(FieldValue::Array(t)) => match source {
                FieldValue::Array(sa) => {
                    let mut joined = copy_texts(t);
                    append_texts(&mut joined, sa);
                    FieldValue::Array(joined)
                },
                _ => FieldValue::Array(copy_texts(t)),
            },
            _ => copy_field(source),
        }
    } else if str_eq(key, "read_duration") {
        let (t_secs, t_nanos) = duration_parts(target);
        let (s_secs, s_nanos) = duration_parts(Some(source));
        let total_nanos = t_nanos + s_nanos;
        let carry_secs = (total_nanos / 1_000_000_000) as i64;
        let rem_nanos = total_nanos % 1_000_000_000;
        let total_secs = t_secs + s_secs + carry_secs;
        let mut e: Vec<(String, InnerValue)> = Vec::new();
        e.push((String::from_str("secs"), InnerValue::Number(int_number_exec(total_secs))));
        e.push((String::from_str("nanos"), InnerValue::Number(JsonNumber::PosInt(rem_nanos))));
        proof {
            assert(e@.drop_last().drop_last() =~= Seq::<(String, InnerValue)>::empty());
            reveal_with_fuel(inner_map, 3);
            assert(inner_map(e@) =~= duration_sum(
                duration_of(opt_ref_view(target)),
                duration_of(Some(field_view(*source))),
            ));
        }
        FieldValue::Object(e)
    } else if str_eq(key, "calendar") {
        match target {
            Some(FieldValue::Object(t)) => match source {
                FieldValue::Object(se) => {
                    let mut out: Vec<(String, InnerValue)> = Vec::new();
                    append_inner_entries(&mut out, t);
                    append_inner_entries(&mut out, se);
                    proof {
                        assert(Map::<Seq<char>, InnerView>::empty().union_prefer_right(
                            inner_map(t@),
                        ) =~= inner_map(t@));
                    }
                    FieldValue::Object(out)
                },
                _ => copy_field(target.unwrap()),
            },
            _ => copy_field(source),
        }
    } else if str_eq(key, "calendar_dates") {
        match target {
            Some(FieldValue::Object(t)) => match source {
                FieldValue::Object(se) => FieldValue::Object(unite_calendar_dates(t, se)),
                _ => copy_field(target.unwrap()),
            },
            _ => copy_field(source),
        }
    } else {
        match target {
            Some(t) => copy_field(t),
            None => copy_field(source),
        }
    }
}

/// The top-level object a document view stands for in a merge: the object itself, or
/// the object that a one-element array holds.
pub open spec fn top_object_view(m: MetadataView) -> Option<Map<Seq<char>, FieldView>> {
    match m {
        MetadataView::Object(o) => Some(o),
        MetadataView::Array(items) => if items.len() == 1 && items[0] is Object {
            Some(items[0]->Object_0)
        } else {
            None
        },
        _ => None,
    }
}

/// A document after normalization: a one-element array holding an object stands for
/// that object.
pub open spec fn normalized_view(m: MetadataView) -> MetadataView {
    match m {
        MetadataView::Array(items) => if items.len() == 1 && items[0] is Object {
            MetadataView::Object(items[0]->Object_0)
        } else {
            m
        },
        _ => m,
    }
}

/// The durations of the two documents' top-level objects can be added: the
/// source's `read_duration`, if any, and the target's.
pub open spec fn merge_view_ok(target: MetadataView, source: MetadataView) -> bool {
    match (top_object_view(target), top_object_view(source)) {
        (Some(t), Some(s)) => s.contains_key("read_duration"@) ==> durations_add_ok(
            duration_of(
                if t.contains_key("read_duration"@) {
                    Some(t["read_duration"@])
                } else {
                    None
                },
            ),
            duration_of(Some(s["read_duration"@])),
        ),
        _ => true,
    }
}

/// The merge of a source document into a target document: a null target becomes
/// the source, a null source leaves the target; otherwise a one-element array holding
/// an object stands for that object, and when both are objects they are merged key by
/// key as [`merged_objects`] says; else the target stays as normalized.
pub open spec fn merged_view(target: MetadataView, source: MetadataView) -> MetadataView {
    if target is Null {
        source
    } else if source is Null {
        target
    } else {
        match (top_object_view(target), top_object_view(source)) {
            (Some(t), Some(s)) => MetadataView::Object(merged_objects(t, s)),
            _ => normalized_view(target),
        }
    }
}

/// [`merge_view_ok`] of two documents.
pub open spec fn merge_ok(target: Metadata, source: Metadata) -> bool {
    merge_view_ok(metadata_view(target), metadata_view(source))
}

/// [`merged_view`] of two documents.
pub open spec fn merged_metadata(target: Metadata, source: Metadata) -> MetadataView {
    merged_view(metadata_view(target), metadata_view(source))
}

/// The top-level object of a document, seen through its view.
proof fn lemma_top_object_view(m: Metadata)
    ensures
        as_top_object(m) is None <==> top_object_view(metadata_view(m)) is None,
        as_top_object(m) matches Some(e) ==> top_object_view(metadata_view(m)) == Some(field_map(e)),
        (as_top_object(m) is None || m is Object) ==> normalized_view(metadata_view(m)) == metadata_view(m),
        (as_top_object(m) is Some && m is Array) ==> normalized_view(metadata_view(m))
            == MetadataView::Object(field_map(as_top_object(m)->Some_0)),
{
    match m {
        Metadata::Array(items) => {
            if items@.len() == 1 {
                assert(items@.map_values(|i: MetadataItem| item_view(i))[0] == item_view(items@[0]));
            }
        },
        _ => {},
    }
}

/// The entry at `i` is the last one with its key.
pub open spec fn is_last_entry(e: Seq<(String, FieldValue)>, i: int) -> bool {
    forall|j: int| i < j < e.len() ==> #[trigger] e[j].0@ != e[i].0@
}

/// The keys whose last entry lies before position `n`.
pub open spec fn keys_done(e: Seq<(String, FieldValue)>, n: int) -> Set<Seq<char>> {
    Set::new(|k: Seq<char>| exists|i: int| 0 <= i < n && #[trigger] e[i].0@ == k && is_last_entry(e, i))
}

/// The entry at `i` is the last one with its key.
fn is_last_of_key(e: &Vec<(String, FieldValue)>, i: usize) -> (r: bool)
    requires
        i < e@.len(),
    ensures
        r == is_last_entry(e@, i as int),
{
    let n = e.len();
    let mut j: usize = i + 1;
    while j < n
        invariant
            n == e@.len(),
            i < j <= e@.len(),
            forall|l: int| i < l < j ==> #[trigger] e@[l].0@ != e@[i as int].0@,
        decreases e@.len() - j,
    {
        if str_eq(e[j].0.as_str(), e[i].0.as_str()) {
            return false;
        }
        j = j + 1;
    }
    true
}

/// A key that occurs in a list of entries has a last occurrence.
proof fn lemma_last_occurrence(e: Seq<(String, FieldValue)>, k: Seq<char>)
    requires
        exists|i: int| 0 <= i < e.len() && #[trigger] e[i].0@ == k,
    ensures
        exists|i: int| 0 <= i < e.len() && #[trigger] e[i].0@ == k && is_last_entry(e, i),
    decreases e.len(),
{
    let n = e.len() - 1;
    if e[n].0@ == k {
        assert(is_last_entry(e, n));
    } else {
        let p = e.drop_last();
        let i = choose|i: int| 0 <= i < e.len() && #[trigger] e[i].0@ == k;
        assert(i != n);
        assert(p[i].0@ == k);
        lemma_last_occurrence(p, k);
        let w = choose|w: int| 0 <= w < p.len() && #[trigger] p[w].0@ == k && is_last_entry(p, w);
        assert(e[w].0@ == k);
        assert forall|l: int| w < l < e.len() implies #[trigger] e[l].0@ != e[w].0@ by {
            if l < p.len() {
                assert(p[l].0@ != p[w].0@);
            }
        }
        assert(is_last_entry(e, w));
    }
}

/// A merged object has one more source field.
proof fn lemma_merged_objects_insert(
    t: Map<Seq<char>, FieldView>,
    s: Map<Seq<char>, FieldView>,
    k: Seq<char>,
    v: FieldView,
)
    ensures
        merged_objects(t, s.insert(k, v)) == merged_objects(t, s).insert(
            k,
            merged_field(k, if t.contains_key(k) { Some(t[k]) } else { None }, v),
        ),
{
    assert(merged_objects(t, s.insert(k, v)) =~= merged_objects(t, s).insert(
        k,
        merged_field(k, if t.contains_key(k) { Some(t[k]) } else { None }, v),
    ));
}

/// Merges the fields of a source object into those of a target object.
fn merge_objects(t: &Vec<(String, FieldValue)>, s: &Vec<(String, FieldValue)>) -> (r: Vec<
    (String, FieldValue),
>)
    requires
        field_map(s@).contains_key("read_duration"@) ==> durations_add_ok(
            duration_of(
                if field_map(t@).contains_key("read_duration"@) {
                    Some(field_map(t@)["read_duration"@])
                } else {
                    None
                },
            ),
            duration_of(Some(field_map(s@)["read_duration"@])),
        ),
    ensures
        field_map(r@) == merged_objects(field_map(t@), field_map(s@)),
{
    let mut out = copy_fields(t);
    proof {
        assert(field_map(s@).restrict(keys_done(s@, 0)) =~= Map::empty());
        assert(merged_objects(field_map(t@), Map::empty()) =~= field_map(t@));
        lemma_field_map_last(s@, "read_duration"@);
    }
    let mut j: usize = 0;
    while j < s.len()
        invariant
            j <= s@.len(),
            field_map(s@).contains_key("read_duration"@) ==> durations_add_ok(
                duration_of(
                    if field_map(t@).contains_key("read_duration"@) {
                        Some(field_map(t@)["read_duration"@])
                    } else {
                        None
                    },
                ),
                duration_of(Some(field_map(s@)["read_duration"@])),
            ),
            field_map(out@) == merged_objects(
                field_map(t@),
                field_map(s@).restrict(keys_done(s@, j as int)),
            ),
        decreases s@.len() - j,
    {
        let ghost k = s@[j as int].0@;
        if is_last_of_key(s, j) {
            let key = &s[j].0;
            let target_field: Option<&FieldValue> = match find_field(t, key.as_str()) {
                Some(ti) => Some(&t[ti].1),
                None => None,
            };
            proof {
                lemma_field_map_last(s@, k);
                assert(field_map(s@)[k] == field_view(s@[j as int].1));
            }
            let merged = merge_field_value(key.as_str(), target_field, &s[j].1);
            let ghost before = out@;
            out.push((key.clone(), merged));
            proof {
                assert(out@.drop_last() =~= before);
                lemma_merged_objects_insert(
                    field_map(t@),
                    field_map(s@).restrict(keys_done(s@, j as int)),
                    k,
                    field_view(s@[j as int].1),
                );
                assert(keys_done(s@, j + 1) =~= keys_done(s@, j as int).insert(k)) by {
                    assert forall|x: Seq<char>| keys_done(s@, j + 1).contains(x) implies keys_done(
                        s@,
                        j as int,
                    ).contains(x) || x == k by {
                        let w = choose|w: int|
                            0 <= w < j + 1 && #[trigger] s@[w].0@ == x && is_last_entry(s@, w);
                        if w < j {
                            assert(s@[w].0@ == x && is_last_entry(s@, w));
                        }
                    }
                    assert(s@[j as int].0@ == k && is_last_entry(s@, j as int));
                    assert forall|x: Seq<char>| keys_done(s@, j as int).contains(x) implies keys_done(
                        s@,
                        j + 1,
                    ).contains(x) by {
                        let w = choose|w: int|
                            0 <= w < j && #[trigger] s@[w].0@ == x && is_last_entry(s@, w);
                        assert(s@[w].0@ == x && is_last_entry(s@, w));
                    }
                }
                assert(field_map(s@).restrict(keys_done(s@, j + 1)) =~= field_map(s@).restrict(
                    keys_done(s@, j as int),
                ).insert(k, field_view(s@[j as int].1)));
            }
        } else {
            proof {
                assert(keys_done(s@, j + 1) =~= keys_done(s@, j as int)) by {
                    assert forall|x: Seq<char>| keys_done(s@, j + 1).contains(x) implies keys_done(
                        s@,
                        j as int,
                    ).contains(x) by {
                        let w = choose|w: int|
                            0 <= w < j + 1 && #[trigger] s@[w].0@ == x && is_last_entry(s@, w);
                        assert(w != j);
                        assert(s@[w].0@ == x && is_last_entry(s@, w));
                    }
                    assert forall|x: Seq<char>| keys_done(s@, j as int).contains(x) implies keys_done(
                        s@,
                        j + 1,
                    ).contains(x) by {
                        let w = choose|w: int|
                            0 <= w < j && #[trigger] s@[w].0@ == x && is_last_entry(s@, w);
                        assert(s@[w].0@ == x && is_last_entry(s@, w));
                    }
                }
            }
        }
        j = j + 1;
    }
    proof {
        assert(field_map(s@).restrict(keys_done(s@, j as int)) =~= field_map(s@)) by {
            assert forall|x: Seq<char>| field_map(s@).contains_key(x) implies keys_done(
                s@,
                j as int,
            ).contains(x) by {
                lemma_field_map_last(s@, x);
                lemma_last_occurrence(s@, x);
            }
        }
    }
    out
}

/// The top-level object a document stands for in a merge, as [`as_top_object`] says.
fn top_object(m: &Metadata) -> (r: Option<&Vec<(String, FieldValue)>>)
    ensures
        r is None <==> as_top_object(*m) is None,
        r matches Some(e) ==> as_top_object(*m) == Some(e@),
{
    match m {
        Metadata::Object(e) => Some(e),
        Metadata::Array(items) => if items.len() == 1 {
            match &items[0] {
                MetadataItem::Object(e) => Some(e),
                MetadataItem::Other(_) => None,
            }
        } else {
            None
        },
        _ => None,
    }
}

/// Merges the metadata of one archive into that of the archives before it, as
/// [`merged_metadata`] says: arrays of agencies and feed info are concatenated,
/// read durations added, calendars united, and any other key keeps the target's value.
pub fn merge_metadata(target: &mut Metadata, source: &Metadata)
    requires
        merge_ok(*old(target), *source),
    ensures
        metadata_view(*final(target)) == merged_metadata(*old(target), *source),
{
    proof {
        lemma_top_object_view(*old(target));
        lemma_top_object_view(*source);
    }
    if let Metadata::Null = target {
        *target = copy_metadata(source);
        return;
    }
    if let Metadata::Null = source {
        return;
    }
    let merged: Option<Vec<(String, FieldValue)>> = match (top_object(target), top_object(source)) {
        (Some(te), Some(se)) => Some(merge_objects(te, se)),
        (Some(te), None) => if let Metadata::Array(_) = target {
            Some(copy_fields(te))
        } else {
            None
        },
        _ => None,
    };
    if let Some(e) = merged {
        *target = Metadata::Object(e);
    }
}

/// Whether the read durations of two documents can be added, as [`merge_ok`] says; a
/// merge is owed exactly on such documents.
pub fn merge_fits(target: &Metadata, source: &Metadata) -> (r: bool)
    ensures
        r == merge_ok(*target, *source),
{
    proof {
        lemma_top_object_view(*target);
        lemma_top_object_view(*source);
    }
    match (top_object(target), top_object(source)) {
        (Some(te), Some(se)) => match find_field(se, "read_duration") {
            None => true,
            Some(si) => {
                let tf: Option<&FieldValue> = match find_field(te, "read_duration") {
                    Some(ti) => Some(&te[ti].1),
                    None => None,
                };
                let (t_secs, t_nanos) = duration_parts(tf);
                let (s_secs, s_nanos) = duration_parts(Some(&se[si].1));
                match t_nanos.checked_add(s_nanos) {
                    None => false,
                    Some(total_nanos) => match t_secs.checked_add(s_secs) {
                        None => false,
                        Some(secs) => secs.checked_add((total_nanos / 1_000_000_000) as i64).is_some(),
                    },
                }
            },
        },
        _ => true,
    }
}

impl Metadata {
    /// The value under a key of the top-level object; `None` when the document is no
    /// object or lacks the key.
    pub fn field(&self, key: &str) -> (r: Option<&FieldValue>)
        ensures
            match *self {
                Metadata::Object(e) => if field_map(e@).contains_key(key@) {
                    r matches Some(v) && field_view(*v) == field_map(e@)[key@]
                } else {
                    r is None
                },
                _ => r is None,
            },
    {
        match self {
            Metadata::Object(e) => match find_field(e, key) {
                Some(i) => Some(&e[i].1),
                None => None,
            },
            _ => None,
        }
    }
}

impl FieldValue {
    /// The value under a key of an object field; `None` when the field is no object or
    /// lacks the key.
    pub fn entry(&self, key: &str) -> (r: Option<&InnerValue>)
        ensures
            match *self {
                FieldValue::Object(e) => if inner_map(e@).contains_key(key@) {
                    r matches Some(v) && inner_view(*v) == inner_map(e@)[key@]
                } else {
                    r is None
                },
                _ => r is None,
            },
    {
        match self {
            FieldValue::Object(e) => match find_inner(e, key) {
                Some(i) => Some(&e[i].1),
                None => None,
            },
            _ => None,
        }
    }
}

} // verus!
