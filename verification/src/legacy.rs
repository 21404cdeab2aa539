//! The JSON files the program reads: those of an older installation, from
//! which the configuration is imported once, and the pipeline override.
use serde_json::{from_str, Value};
use vstd::prelude::*;

use crate::config::{ui_scale_label, PresetEntry, UiScale};
use crate::text::{chars_of, compare_text, string_views, TextOrder};

verus! {

/// A member of a JSON document as the import reads it: its text when it is
/// a string, and its fields (each with its text when that is a string) when
/// it is an object.
#[derive(Debug)]
pub struct LegacyItem {
    pub text: Option<String>,
    pub fields: Option<Vec<(String, Option<String>)>>,
}

/// A JSON document as the import reads it: its members when it is an array,
/// its fields when it is an object.
#[derive(Debug)]
pub struct LegacyJson {
    pub list: Option<Vec<LegacyItem>>,
    pub fields: Option<Vec<(String, LegacyItem)>>,
}

/// A parsed JSON document: written back compactly, and as the import reads it.
#[derive(Debug)]
pub struct ParsedJson {
    pub compact: String,
    pub legacy: LegacyJson,
}

/// A member as plain values.
pub struct LegacyItemView {
    pub text: Option<Seq<char>>,
    pub fields: Option<Seq<(Seq<char>, Option<Seq<char>>)>>,
}

/// A document as plain values.
pub struct LegacyJsonView {
    pub list: Option<Seq<LegacyItemView>>,
    pub fields: Option<Seq<(Seq<char>, LegacyItemView)>>,
}

/// The view of an optional text.
pub open spec fn opt_text(o: Option<String>) -> Option<Seq<char>> {
    match o {
        Some(s) => Some(s@),
        None => None,
    }
}

/// The fields of a member as plain values.
pub open spec fn text_fields_view(f: Seq<(String, Option<String>)>) -> Seq<(Seq<char>, Option<Seq<char>>)> {
    f.map_values(|e: (String, Option<String>)| (e.0@, opt_text(e.1)))
}

/// A member as plain values.
pub open spec fn item_view(i: LegacyItem) -> LegacyItemView {
    LegacyItemView {
        text: opt_text(i.text),
        fields: match i.fields {
            Some(f) => Some(text_fields_view(f@)),
            None => None,
        },
    }
}

/// The fields of a document as plain values.
pub open spec fn item_fields_view(f: Seq<(String, LegacyItem)>) -> Seq<(Seq<char>, LegacyItemView)> {
    f.map_values(|e: (String, LegacyItem)| (e.0@, item_view(e.1)))
}

/// The members of a document as plain values.
pub open spec fn items_view(l: Seq<LegacyItem>) -> Seq<LegacyItemView> {
    l.map_values(|i: LegacyItem| item_view(i))
}

/// A document as plain values.
pub open spec fn json_view(j: LegacyJson) -> LegacyJsonView {
    LegacyJsonView {
        list: match j.list {
            Some(l) => Some(items_view(l@)),
            None => None,
        },
        fields: match j.fields {
            Some(f) => Some(item_fields_view(f@)),
            None => None,
        },
    }
}

/// What `serde_json::from_str` gives for a text parsed as a
/// `serde_json::Value`: the value written back compactly and the value as
/// the import reads it, or the message of the parse error.
pub uninterp spec fn json_parse(raw: Seq<char>) -> Result<(Seq<char>, LegacyJsonView), Seq<char>>;

/// `serde_json::from_str` into a `serde_json::Value`, the value written back
/// with `Value::to_string` and read as the import reads it; the result is the
/// one named `json_parse` of the text, nothing more is stated of it.
#[verifier::external_body]
fn parse_json(raw: &str) -> (r: Result<ParsedJson, String>)
    ensures
        match r {
            Ok(p) => json_parse(raw@) == Ok::<(Seq<char>, LegacyJsonView), Seq<char>>(
                (p.compact@, json_view(p.legacy)),
            ),
            Err(e) => json_parse(raw@) == Err::<(Seq<char>, LegacyJsonView), Seq<char>>(e@),
        },
{
    let v: Value = from_str(raw).map_err(|e| e.to_string())?;
    let item = |x: &Value| LegacyItem {
        text: x.as_str().map(str::to_owned),
        fields: x.as_object().map(|m| m.iter().map(|(k, y)| (k.clone(), y.as_str().map(str::to_owned))).collect())
    };
    Ok(ParsedJson { compact: v.to_string(), legacy: LegacyJson {
        list: v.as_array().map(|a| a.iter().map(&item).collect()),
        fields: v.as_object().map(|m| m.iter().map(|(k, x)| (k.clone(), item(x))).collect())
    } })
}

/// The compact form of a JSON text, or the parse error's message.
pub open spec fn json_compact(raw: Seq<char>) -> Result<Seq<char>, Seq<char>> {
    match json_parse(raw) {
        Ok(p) => Ok(p.0),
        Err(e) => Err(e),
    }
}

/// A JSON text as the import reads it, or the parse error's message.
pub open spec fn legacy_of(raw: Seq<char>) -> Result<LegacyJsonView, Seq<char>> {
    match json_parse(raw) {
        Ok(p) => Ok(p.1),
        Err(e) => Err(e),
    }
}

/// A JSON text written compactly.
pub fn compact_json(raw: &str) -> (r: Result<String, String>)
    ensures
        match json_compact(raw@) {
            Ok(c) => r matches Ok(t) && t@ == c,
            Err(e) => r matches Err(m) && m@ == e,
        },
{
    match parse_json(raw) {
        Ok(p) => Ok(p.compact),
        Err(e) => Err(e),
    }
}

/// The prefix of the error about an override file that is not JSON.
pub open spec fn override_error_prefix() -> Seq<char> {
    "pipeline override JSON 无效: "@
}

/// The pipeline override given to a task: `{}` when there is no override
/// file, else the file's JSON written compactly; a file that is not JSON is
/// an error.
pub fn pipeline_override_text(file: Option<String>) -> (r: Result<String, String>)
    ensures
        match file {
            None => r matches Ok(t) && t@ == "{}"@,
            Some(raw) => match json_compact(raw@) {
                Ok(c) => r matches Ok(t) && t@ == c,
                Err(e) => r matches Err(m) && m@ == override_error_prefix() + e,
            },
        },
{
    match file {
        None => Ok(String::from_str("{}")),
        Some(raw) => match compact_json(raw.as_str()) {
            Ok(t) => Ok(t),
            Err(e) => {
                let mut m = String::from_str("pipeline override JSON 无效: ");
                m.append(e.as_str());
                Err(m)
            },
        },
    }
}

/// The value of the first field named `key`.
pub open spec fn field_of<V>(fields: Seq<(Seq<char>, V)>, key: Seq<char>) -> Option<V>
    decreases fields.len(),
{
    if fields.len() == 0 {
        None
    } else if fields[0].0 == key {
        Some(fields[0].1)
    } else {
        field_of(fields.drop_first(), key)
    }
}

proof fn lemma_field_at<V>(fields: Seq<(Seq<char>, V)>, key: Seq<char>, i: int)
    requires
        0 <= i <= fields.len(),
        forall|j: int| 0 <= j < i ==> fields[j].0 != key,
        i < fields.len() ==> fields[i].0 == key,
    ensures
        field_of(fields, key) == if i < fields.len() {
            Some(fields[i].1)
        } else {
            None::<V>
        },
    decreases i,
{
    if i > 0 {
        let rest = fields.drop_first();
        assert forall|j: int| 0 <= j < i - 1 implies rest[j].0 != key by {
            assert(rest[j] == fields[j + 1]);
        }
        if i < fields.len() {
            assert(rest[i - 1] == fields[i]);
        }
        lemma_field_at(rest, key, i - 1);
        assert(fields[0].0 != key);
    }
}

/// The position of the first field named `key`, if any.
fn find_key<V>(fields: &Vec<(String, V)>, key: &str) -> (r: Option<usize>)
    ensures
        match r {
            Some(i) => i < fields@.len() && fields@[i as int].0@ == key@ && forall|j: int|
                0 <= j < i ==> fields@[j].0@ != key@,
            None => forall|j: int| 0 <= j < fields@.len() ==> fields@[j].0@ != key@,
        },
{
    let k = chars_of(key);
    let mut i: usize = 0;
    while i < fields.len()
        invariant
            i <= fields@.len(),
            k@ == key@,
            forall|j: int| 0 <= j < i ==> fields@[j].0@ != key@,
        decreases fields.len() - i,
    {
        let name = chars_of(fields[i].0.as_str());
        if matches!(compare_text(&name, &k), TextOrder::Equal) {
            return Some(i);
        }
        i += 1;
    }
    None
}

/// The member in the field named `key` of a document's fields.
fn item_field<'a>(fields: &'a Vec<(String, LegacyItem)>, key: &str) -> (r: Option<&'a LegacyItem>)
    ensures
        match r {
            Some(it) => field_of(item_fields_view(fields@), key@) == Some(item_view(*it)),
            None => field_of(item_fields_view(fields@), key@) is None,
        },
{
    let ghost v = item_fields_view(fields@);
    match find_key(fields, key) {
        Some(i) => {
            proof {
                assert forall|j: int| 0 <= j < i implies v[j].0 != key@ by {
                    assert(v[j].0 == fields@[j].0@);
                }
                assert(v[i as int].0 == fields@[i as int].0@);
                lemma_field_at(v, key@, i as int);
            }
            Some(&fields[i].1)
        },
        None => {
            proof {
                assert forall|j: int| 0 <= j < v.len() implies v[j].0 != key@ by {
                    assert(v[j].0 == fields@[j].0@);
                }
                lemma_field_at(v, key@, v.len() as int);
            }
            None
        },
    }
}

/// The text in the field named `key` of a member's fields.
fn text_field<'a>(fields: &'a Vec<(String, Option<String>)>, key: &str) -> (r: Option<&'a Option<String>>)
    ensures
        match r {
            Some(t) => field_of(text_fields_view(fields@), key@) == Some(opt_text(*t)),
            None => field_of(text_fields_view(fields@), key@) is None,
        },
{
    let ghost v = text_fields_view(fields@);
    match find_key(fields, key) {
        Some(i) => {
            proof {
                assert forall|j: int| 0 <= j < i implies v[j].0 != key@ by {
                    assert(v[j].0 == fields@[j].0@);
                }
                assert(v[i as int].0 == fields@[i as int].0@);
                lemma_field_at(v, key@, i as int);
            }
            Some(&fields[i].1)
        },
        None => {
            proof {
                assert forall|j: int| 0 <= j < v.len() implies v[j].0 != key@ by {
                    assert(v[j].0 == fields@[j].0@);
                }
                lemma_field_at(v, key@, v.len() as int);
            }
            None
        },
    }
}

/// The string members of a list, in order.
pub open spec fn list_texts(items: Seq<LegacyItemView>) -> Seq<Seq<char>>
    decreases items.len(),
{
    if items.len() == 0 {
        Seq::empty()
    } else {
        let prev = list_texts(items.drop_last());
        match items.last().text {
            Some(t) => prev.push(t),
            None => prev,
        }
    }
}

/// The names of a list file: its string members when it is an array,
/// nothing otherwise.
pub open spec fn string_list_of(j: LegacyJsonView) -> Seq<Seq<char>> {
    match j.list {
        Some(items) => list_texts(items),
        None => Seq::empty(),
    }
}

/// The names in a list file: none without the file, else its string members
/// in order; a file that is not JSON is an error.
pub fn legacy_string_list(raw: Option<String>) -> (r: Result<Vec<String>, String>)
    ensures
        match raw {
            None => r matches Ok(v) && v@.len() == 0,
            Some(t) => match legacy_of(t@) {
                Ok(j) => r matches Ok(v) && string_views(v@) == string_list_of(j),
                Err(e) => r matches Err(m) && m@ == e,
            },
        },
{
    let raw = match raw {
        None => {
            return Ok(Vec::new());
        },
        Some(t) => t,
    };
    let p = match parse_json(raw.as_str()) {
        Ok(p) => p,
        Err(e) => {
            return Err(e);
        },
    };
    let mut out: Vec<String> = Vec::new();
    match &p.legacy.list {
        None => {
            assert(string_views(out@) =~= Seq::<Seq<char>>::empty());
        },
        Some(items) => {
            let ghost v = items_view(items@);
            let mut i: usize = 0;
            assert(v.take(0) =~= Seq::<LegacyItemView>::empty());
            assert(string_views(out@) =~= Seq::<Seq<char>>::empty());
            while i < items.len()
                invariant
                    i <= items@.len(),
                    v == items_view(items@),
                    string_views(out@) == list_texts(v.take(i as int)),
                decreases items.len() - i,
            {
                assert(v.take(i + 1).drop_last() =~= v.take(i as int));
                assert(v.take(i + 1).last() == item_view(items@[i as int]));
                let ghost before = out@;
                match &items[i].text {
                    Some(t) => {
                        out.push(t.clone());
                        assert(string_views(out@) =~= string_views(before).push(t@));
                    },
                    None => {},
                }
                i += 1;
            }
            assert(v.take(items.len() as int) =~= v);
        },
    }
    Ok(out)
}

/// The label and value of a preset member: both fields must be texts.
pub open spec fn preset_of(item: LegacyItemView) -> Option<(Seq<char>, Seq<char>)> {
    match item.fields {
        Some(f) => match (field_of(f, "label"@), field_of(f, "value"@)) {
            (Some(Some(l)), Some(Some(v))) => Some((l, v)),
            _ => None,
        },
        None => None,
    }
}

/// The presets of a list of members, in order.
pub open spec fn presets_of(items: Seq<LegacyItemView>) -> Seq<(Seq<char>, Seq<char>)>
    decreases items.len(),
{
    if items.len() == 0 {
        Seq::empty()
    } else {
        let prev = presets_of(items.drop_last());
        match preset_of(items.last()) {
            Some(e) => prev.push(e),
            None => prev,
        }
    }
}

/// The presets of a preset file: those of its members when it is an array.
pub open spec fn preset_list_of(j: LegacyJsonView) -> Seq<(Seq<char>, Seq<char>)> {
    match j.list {
        Some(items) => presets_of(items),
        None => Seq::empty(),
    }
}

/// The label and value of each preset.
pub open spec fn preset_views(v: Seq<PresetEntry>) -> Seq<(Seq<char>, Seq<char>)> {
    v.map_values(|e: PresetEntry| (e.label@, e.value@))
}

/// The presets in a preset file: none without the file, else each member
/// with a text label and a text value, in order; a file that is not JSON is
/// an error.
pub fn legacy_presets(raw: Option<String>) -> (r: Result<Vec<PresetEntry>, String>)
    ensures
        match raw {
            None => r matches Ok(v) && v@.len() == 0,
            Some(t) => match legacy_of(t@) {
                Ok(j) => r matches Ok(v) && preset_views(v@) == preset_list_of(j),
                Err(e) => r matches Err(m) && m@ == e,
            },
        },
{
    let raw = match raw {
        None => {
            return Ok(Vec::new());
        },
        Some(t) => t,
    };
    let p = match parse_json(raw.as_str()) {
        Ok(p) => p,
        Err(e) => {
            return Err(e);
        },
    };
    let mut out: Vec<PresetEntry> = Vec::new();
    match &p.legacy.list {
        None => {
            assert(preset_views(out@) =~= Seq::<(Seq<char>, Seq<char>)>::empty());
        },
        Some(items) => {
            let ghost v = items_view(items@);
            let mut i: usize = 0;
            assert(v.take(0) =~= Seq::<LegacyItemView>::empty());
            assert(preset_views(out@) =~= Seq::<(Seq<char>, Seq<char>)>::empty());
            while i < items.len()
                invariant
                    i <= items@.len(),
                    v == items_view(items@),
                    preset_views(out@) == presets_of(v.take(i as int)),
                decreases items.len() - i,
            {
                assert(v.take(i + 1).drop_last() =~= v.take(i as int));
                assert(v.take(i + 1).last() == item_view(items@[i as int]));
                let ghost before = out@;
                if let Some(f) = &items[i].fields {
                    let label = text_field(f, "label");
                    let value = text_field(f, "value");
                    if let (Some(Some(l)), Some(Some(x))) = (label, value) {
                        let e = PresetEntry { label: l.clone(), value: x.clone() };
                        out.push(e);
                        assert(preset_views(out@) =~= preset_views(before).push((l@, x@)));
                    }
                }
                i += 1;
            }
            assert(v.take(items.len() as int) =~= v);
        },
    }
    Ok(out)
}

/// The fields of a member whose values are texts, in order.
pub open spec fn texts_of_fields(f: Seq<(Seq<char>, Option<Seq<char>>)>) -> Seq<(Seq<char>, Seq<char>)>
    decreases f.len(),
{
    if f.len() == 0 {
        Seq::empty()
    } else {
        let prev = texts_of_fields(f.drop_last());
        match f.last().1 {
            Some(t) => prev.push((f.last().0, t)),
            None => prev,
        }
    }
}

/// The corrections of an advanced settings file: the text-valued fields of
/// its `ocr_correction_map` object, if it has one.
pub open spec fn corrections_of(j: LegacyJsonView) -> Option<Seq<(Seq<char>, Seq<char>)>> {
    match j.fields {
        Some(f) => match field_of(f, "ocr_correction_map"@) {
            Some(item) => match item.fields {
                Some(m) => Some(texts_of_fields(m)),
                None => None,
            },
            None => None,
        },
        None => None,
    }
}

/// The corrections in an advanced settings file: the fields of its
/// `ocr_correction_map` object whose values are texts, or none where it has
/// no such object; a file that is not JSON is an error.
pub fn legacy_corrections(raw: &str) -> (r: Result<Option<Vec<(String, String)>>, String>)
    ensures
        match legacy_of(raw@) {
            Ok(j) => r matches Ok(o) && match corrections_of(j) {
                Some(c) => o matches Some(v) && v@.map_values(|e: (String, String)| (e.0@, e.1@))
                    == c,
                None => o is None,
            },
            Err(e) => r matches Err(m) && m@ == e,
        },
{
    let p = match parse_json(raw) {
        Ok(p) => p,
        Err(e) => {
            return Err(e);
        },
    };
    let fields = match &p.legacy.fields {
        None => {
            return Ok(None);
        },
        Some(f) => f,
    };
    let map = match item_field(fields, "ocr_correction_map") {
        None => {
            return Ok(None);
        },
        Some(item) => match &item.fields {
            None => {
                return Ok(None);
            },
            Some(m) => m,
        },
    };
    let ghost v = text_fields_view(map@);
    let mut out: Vec<(String, String)> = Vec::new();
    let mut i: usize = 0;
    assert(v.take(0) =~= Seq::<(Seq<char>, Option<Seq<char>>)>::empty());
    assert(out@.map_values(|e: (String, String)| (e.0@, e.1@)) =~= Seq::<(Seq<char>, Seq<char>)>::empty());
    while i < map.len()
        invariant
            i <= map@.len(),
            v == text_fields_view(map@),
            out@.map_values(|e: (String, String)| (e.0@, e.1@)) == texts_of_fields(v.take(i as int)),
        decreases map.len() - i,
    {
        assert(v.take(i + 1).drop_last() =~= v.take(i as int));
        assert(v.take(i + 1).last() == (map@[i as int].0@, opt_text(map@[i as int].1)));
        let ghost before = out@;
        if let Some(t) = &map[i].1 {
            let k = map[i].0.clone();
            let x = t.clone();
            out.push((k, x));
            assert(out@.map_values(|e: (String, String)| (e.0@, e.1@)) =~= before.map_values(
                |e: (String, String)| (e.0@, e.1@),
            ).push((map@[i as int].0@, t@)));
        }
        i += 1;
    }
    assert(v.take(map.len() as int) =~= v);
    Ok(Some(out))
}

/// The text of the field named `key` of a document, if it has one.
pub open spec fn text_of_field(j: LegacyJsonView, key: Seq<char>) -> Option<Seq<char>> {
    match j.fields {
        Some(f) => match field_of(f, key) {
            Some(item) => item.text,
            None => None,
        },
        None => None,
    }
}

fn document_text(p: &ParsedJson, key: &str) -> (r: Option<String>)
    ensures
        opt_text(r) == text_of_field(json_view(p.legacy), key@),
{
    match &p.legacy.fields {
        None => None,
        Some(fields) => match item_field(fields, key) {
            None => None,
            Some(item) => match &item.text {
                Some(t) => Some(t.clone()),
                None => None,
            },
        },
    }
}

/// The window title in an option file: its `window_title` field when that
/// is a text; a file that is not JSON is an error.
pub fn legacy_window_title(raw: &str) -> (r: Result<Option<String>, String>)
    ensures
        match legacy_of(raw@) {
            Ok(j) => r matches Ok(o) && opt_text(o) == text_of_field(j, "window_title"@),
            Err(e) => r matches Err(m) && m@ == e,
        },
{
    match parse_json(raw) {
        Ok(p) => Ok(document_text(&p, "window_title")),
        Err(e) => Err(e),
    }
}

/// The scale whose label is `label`, if any.
pub open spec fn scale_of_label(label: Seq<char>) -> Option<UiScale> {
    if label == ui_scale_label(UiScale::Scale100) {
        Some(UiScale::Scale100)
    } else if label == ui_scale_label(UiScale::Scale90) {
        Some(UiScale::Scale90)
    } else {
        None
    }
}

/// The scale of an advanced settings file: the label in its `ui_scale`
/// field, when that is `100%` or `90%`.
pub open spec fn legacy_scale_of(raw: Seq<char>) -> Option<UiScale> {
    match legacy_of(raw) {
        Ok(j) => match text_of_field(j, "ui_scale"@) {
            Some(t) => scale_of_label(t),
            None => None,
        },
        Err(_) => None,
    }
}

/// The scale in an advanced settings file; none where the file is not JSON
/// or names no known scale.
pub fn legacy_ui_scale(raw: &str) -> (r: Option<UiScale>)
    ensures
        r == legacy_scale_of(raw@),
{
    match parse_json(raw) {
        Ok(p) => match document_text(&p, "ui_scale") {
            Some(t) => UiScale::from_label(t.as_str()),
            None => None,
        },
        Err(_) => None,
    }
}

} // verus!
