//! Settings, strategy configuration and the editable name lists.
use vstd::prelude::*;

use crate::text::{
    is_list_separator, is_white_space, trim, trim_end, trim_start, split_pieces,
    lemma_split_pieces_nonempty, compare_text, join_with, lemma_text_less_irreflexive, lemma_text_less_total,
    lemma_text_less_transitive, parse_name_list, string_views, text_less, join_strings, chars_of,
    name_tokens, TextOrder,
};

verus! {

/// How the game window is driven.
#[derive(Debug, Clone, Copy, PartialEq, Eq)]
pub enum ControllerKind {
    Win32,
}

/// The in-game interface scale, which decides where the screen regions lie.
#[derive(Debug, Clone, Copy, PartialEq, Eq)]
pub enum UiScale {
    Scale90,
    Scale100,
}

/// The label of an interface scale.
pub open spec fn ui_scale_label(scale: UiScale) -> Seq<char> {
    match scale {
        UiScale::Scale90 => seq!['9', '0', '%'],
        UiScale::Scale100 => seq!['1', '0', '0', '%'],
    }
}

impl UiScale {
    /// The label shown for the scale: `90%` or `100%`.
    pub fn as_str(self) -> (s: &'static str)
        ensures
            s@ == ui_scale_label(self),
    {
        match self {
            UiScale::Scale90 => {
                let s = "90%";
                proof {
                    reveal_strlit("90%");
                }
                assert(s@ =~= seq!['9', '0', '%']);
                s
            },
            UiScale::Scale100 => {
                let s = "100%";
                proof {
                    reveal_strlit("100%");
                }
                assert(s@ =~= seq!['1', '0', '0', '%']);
                s
            },
        }
    }

    /// The scale whose label is `label`, if any.
    pub fn from_label(label: &str) -> (r: Option<UiScale>)
        ensures
            r == (if label@ == ui_scale_label(UiScale::Scale100) {
                Some(UiScale::Scale100)
            } else if label@ == ui_scale_label(UiScale::Scale90) {
                Some(UiScale::Scale90)
            } else {
                None
            }),
    {
        let given = chars_of(label);
        let hundred = chars_of(UiScale::Scale100.as_str());
        let ninety = chars_of(UiScale::Scale90.as_str());
        if matches!(compare_text(&given, &hundred), TextOrder::Equal) {
            Some(UiScale::Scale100)
        } else if matches!(compare_text(&given, &ninety), TextOrder::Equal) {
            Some(UiScale::Scale90)
        } else {
            None
        }
    }
}

/// Which of the two automations runs.
#[derive(Debug, Clone, Copy, PartialEq, Eq)]
pub enum RuntimeMode {
    AutoReverse,
    RefreshKeep,
}

/// The display name of a runtime mode.
pub open spec fn runtime_mode_label(mode: RuntimeMode) -> Seq<char> {
    match mode {
        RuntimeMode::AutoReverse => seq!['自', '动', '倒', '转'],
        RuntimeMode::RefreshKeep => seq!['刷', '新', '保', '留'],
    }
}

impl RuntimeMode {
    /// The display name of the mode.
    pub fn label(self) -> (s: &'static str)
        ensures
            s@ == runtime_mode_label(self),
    {
        match self {
            RuntimeMode::AutoReverse => {
                let s = "自动倒转";
                proof {
                    reveal_strlit("自动倒转");
                }
                assert(s@ =~= seq!['自', '动', '倒', '转']);
                s
            },
            RuntimeMode::RefreshKeep => {
                let s = "刷新保留";
                proof {
                    reveal_strlit("刷新保留");
                }
                assert(s@ =~= seq!['刷', '新', '保', '留']);
                s
            },
        }
    }
}

/// Application settings.
#[derive(Debug, Clone)]
pub struct AppSettings {
    pub controller: ControllerKind,
    pub selected_window_title: String,
    pub ui_scale: UiScale,
    pub recent_windows: Vec<String>,
}

/// The title of the game window that is selected by default.
pub open spec fn default_window_title() -> Seq<char> {
    seq!['明', '日', '方', '舟']
}

/// The default window title as a string.
pub fn default_window_title_string() -> (s: String)
    ensures
        s@ == default_window_title(),
{
    let lit = "明日方舟";
    proof {
        reveal_strlit("明日方舟");
    }
    assert(lit@ =~= default_window_title());
    String::from_str(lit)
}

impl Default for AppSettings {
    fn default() -> (s: Self)
        ensures
            s.controller == ControllerKind::Win32,
            s.selected_window_title@ == default_window_title(),
            s.ui_scale == UiScale::Scale90,
            s.recent_windows@.len() == 0,
    {
        AppSettings {
            controller: ControllerKind::Win32,
            selected_window_title: default_window_title_string(),
            ui_scale: UiScale::Scale90,
            recent_windows: Vec::new(),
        }
    }
}

/// Keys in strictly increasing order.
pub open spec fn keys_strictly_increasing(entries: Seq<(Seq<char>, Seq<char>)>) -> bool {
    forall|i: int, j: int|
        0 <= i < j < entries.len() ==> text_less(#[trigger] entries[i].0, #[trigger] entries[j].0)
}

/// The value of `key` among the entries, if one of them has it.
pub open spec fn lookup_entry(entries: Seq<(Seq<char>, Seq<char>)>, key: Seq<char>) -> Option<
    Seq<char>,
>
    decreases entries.len(),
{
    if entries.len() == 0 {
        None
    } else if entries[0].0 == key {
        Some(entries[0].1)
    } else {
        lookup_entry(entries.drop_first(), key)
    }
}

/// OCR corrections: a map from a misread text to its replacement, iterated in
/// increasing order of keys.
#[derive(Debug)]
pub struct CorrectionMap {
    entries: Vec<(String, String)>,
}

impl CorrectionMap {
    /// The entries as texts, in iteration order.
    pub closed spec fn entries(self) -> Seq<(Seq<char>, Seq<char>)> {
        self.entries@.map_values(|e: (String, String)| (e.0@, e.1@))
    }

    #[verifier::type_invariant]
    spec fn sorted(self) -> bool {
        keys_strictly_increasing(self.entries())
    }

    /// A copy of the map.
    pub fn duplicate(&self) -> (m: Self)
        ensures
            m.entries() == self.entries(),
    {
        proof {
            use_type_invariant(self);
        }
        let mut entries: Vec<(String, String)> = Vec::new();
        let mut i: usize = 0;
        while i < self.entries.len()
            invariant
                i <= self.entries@.len(),
                entries@.map_values(|e: (String, String)| (e.0@, e.1@)) == self.entries().subrange(
                    0,
                    i as int,
                ),
            decreases self.entries@.len() - i,
        {
            let k = self.entries[i].0.clone();
            let v = self.entries[i].1.clone();
            let ghost before = entries@;
            assert(k@ == self.entries()[i as int].0 && v@ == self.entries()[i as int].1);
            entries.push((k, v));
            assert(entries@ == before.push((k, v)));
            assert(entries@.map_values(|e: (String, String)| (e.0@, e.1@)) =~= before.map_values(
                |e: (String, String)| (e.0@, e.1@),
            ).push((k@, v@)));
            i = i + 1;
            assert(entries@.map_values(|e: (String, String)| (e.0@, e.1@)) =~= self.entries().subrange(
                0,
                i as int,
            ));
        }
        assert(self.entries().subrange(0, self.entries@.len() as int) =~= self.entries());
        let m = CorrectionMap { entries };
        assert(m.entries() == self.entries());
        m
    }

    /// An empty map.
    pub fn new() -> (m: Self)
        ensures
            m.entries().len() == 0,
    {
        let m = CorrectionMap { entries: Vec::new() };
        assert(m.entries() =~= Seq::<(Seq<char>, Seq<char>)>::empty());
        m
    }

    /// The number of entries.
    pub fn len(&self) -> (n: usize)
        ensures
            n == self.entries().len(),
            keys_strictly_increasing(self.entries()),
    {
        proof {
            use_type_invariant(self);
        }
        self.entries.len()
    }

    /// The key and value of entry `i`.
    pub fn entry(&self, i: usize) -> (e: (&String, &String))
        requires
            i < self.entries().len(),
        ensures
            e.0@ == self.entries()[i as int].0,
            e.1@ == self.entries()[i as int].1,
    {
        let pair = &self.entries[i];
        (&pair.0, &pair.1)
    }

    /// The value stored for `key`.
    pub fn get(&self, key: &Vec<char>) -> (r: Option<String>)
        ensures
            r matches Some(v) ==> lookup_entry(self.entries(), key@) == Some(v@),
            r is None ==> lookup_entry(self.entries(), key@) is None,
    {
        let n = self.entries.len();
        let mut i: usize = 0;
        assert(self.entries().subrange(0, n as int) =~= self.entries());
        while i < n
            invariant
                n == self.entries().len(),
                i <= n,
                lookup_entry(self.entries(), key@) == lookup_entry(
                    self.entries().subrange(i as int, n as int),
                    key@,
                ),
            decreases n - i,
        {
            let ghost rest = self.entries().subrange(i as int, n as int);
            assert(rest.drop_first() =~= self.entries().subrange(i + 1, n as int));
            let k = chars_of(self.entries[i].0.as_str());
            if matches!(compare_text(&k, key), TextOrder::Equal) {
                return Some(self.entries[i].1.clone());
            }
            i = i + 1;
        }
        None
    }

    /// Sets the value of `key`, keeping the keys in increasing order.
    pub fn insert(&mut self, key: String, value: String)
        ensures
            exists|p: int|
                0 <= p <= old(self).entries().len() && #[trigger] insert_result(
                    old(self).entries(),
                    p,
                    key@,
                    value@,
                    final(self).entries(),
                ),
            forall|k: Seq<char>|
                #[trigger] lookup_entry(final(self).entries(), k) == if k == key@ {
                    Some(value@)
                } else {
                    lookup_entry(old(self).entries(), k)
                },
    {
        proof {
            use_type_invariant(&*self);
        }
        let ghost old_entries = self.entries();
        let mut entries: Vec<(String, String)> = Vec::new();
        std::mem::swap(&mut entries, &mut self.entries);
        assert(entries@.map_values(|e: (String, String)| (e.0@, e.1@)) == old_entries);
        let key_chars = chars_of(key.as_str());
        let n = entries.len();
        let mut i: usize = 0;
        while i < n
            invariant
                n == entries@.len(),
                old_entries == old(self).entries(),
                old_entries == entries@.map_values(|e: (String, String)| (e.0@, e.1@)),
                keys_strictly_increasing(old_entries),
                key_chars@ == key@,
                i <= n,
                forall|j: int| 0 <= j < i ==> text_less(#[trigger] old_entries[j].0, key@),
            decreases n - i,
        {
            let k = chars_of(entries[i].0.as_str());
            assert(old_entries[i as int].0 == k@);
            match compare_text(&k, &key_chars) {
                TextOrder::Less => {
                    i = i + 1;
                },
                TextOrder::Equal => {
                    let ghost p = i as int;
                    entries.set(i, (key, value));
                    let ghost new_entries = entries@.map_values(|e: (String, String)| (e.0@, e.1@));
                    assert(new_entries =~= old_entries.update(p, (key@, value@)));
                    assert(keys_strictly_increasing(new_entries)) by {
                        assert forall|a: int, b: int| 0 <= a < b < new_entries.len() implies text_less(
                            #[trigger] new_entries[a].0,
                            #[trigger] new_entries[b].0,
                        ) by {
                            assert(new_entries[a].0 == old_entries[a].0);
                            assert(new_entries[b].0 == old_entries[b].0);
                        }
                    }
                    self.entries = entries;
                    assert(self.entries() == new_entries);
                    assert(insert_result(old_entries, p, key@, value@, self.entries()));
                    assert forall|k: Seq<char>| #[trigger] lookup_entry(self.entries(), k) == if k == key@ {
                        Some(value@)
                    } else {
                        lookup_entry(old_entries, k)
                    } by {
                        lemma_insert_then_lookup(old_entries, p, key@, value@, self.entries(), k);
                    }
                    return ;
                },
                TextOrder::Greater => {
                    let ghost p = i as int;
                    proof {
                        assert forall|j: int| p <= j < n implies text_less(
                            key@,
                            #[trigger] old_entries[j].0,
                        ) by {
                            if j > p {
                                lemma_text_less_transitive(
                                    key@,
                                    old_entries[p].0,
                                    old_entries[j].0,
                                );
                            }
                        }
                    }
                    entries.insert(i, (key, value));
                    let ghost new_entries = entries@.map_values(|e: (String, String)| (e.0@, e.1@));
                    assert(new_entries =~= old_entries.insert(p, (key@, value@)));
                    proof {
                        lemma_insert_keeps_order(old_entries, p, key@, value@);
                    }
                    self.entries = entries;
                    assert(self.entries() == new_entries);
                    assert(insert_result(old_entries, p, key@, value@, self.entries()));
                    assert forall|k: Seq<char>| #[trigger] lookup_entry(self.entries(), k) == if k == key@ {
                        Some(value@)
                    } else {
                        lookup_entry(old_entries, k)
                    } by {
                        lemma_insert_then_lookup(old_entries, p, key@, value@, self.entries(), k);
                    }
                    return ;
                },
            }
        }
        let ghost p = n as int;
        entries.push((key, value));
        let ghost new_entries = entries@.map_values(|e: (String, String)| (e.0@, e.1@));
        assert(new_entries =~= old_entries.insert(p, (key@, value@)));
        proof {
            lemma_insert_keeps_order(old_entries, p, key@, value@);
        }
        self.entries = entries;
        assert(self.entries() == new_entries);
        assert(insert_result(old_entries, p, key@, value@, self.entries()));
        assert forall|k: Seq<char>| #[trigger] lookup_entry(self.entries(), k) == if k == key@ {
            Some(value@)
        } else {
            lookup_entry(old_entries, k)
        } by {
            lemma_insert_then_lookup(old_entries, p, key@, value@, self.entries(), k);
        }
    }
}

/// `after` is `before` with `(key, value)` set at position `p`: the entry at
/// `p` replaced when it has `key`, else a new entry inserted there; every key
/// before `p` is less than `key` and every key from `p` on is at least `key`.
pub open spec fn insert_result(
    before: Seq<(Seq<char>, Seq<char>)>,
    p: int,
    key: Seq<char>,
    value: Seq<char>,
    after: Seq<(Seq<char>, Seq<char>)>,
) -> bool {
    &&& forall|j: int| 0 <= j < p ==> text_less(#[trigger] before[j].0, key)
    &&& if p < before.len() && before[p].0 == key {
        after == before.update(p, (key, value))
    } else {
        &&& forall|j: int| p <= j < before.len() ==> text_less(key, #[trigger] before[j].0)
        &&& after == before.insert(p, (key, value))
    }
}

proof fn lemma_insert_keeps_order(
    before: Seq<(Seq<char>, Seq<char>)>,
    p: int,
    key: Seq<char>,
    value: Seq<char>,
)
    requires
        0 <= p <= before.len(),
        keys_strictly_increasing(before),
        forall|j: int| 0 <= j < p ==> text_less(#[trigger] before[j].0, key),
        forall|j: int| p <= j < before.len() ==> text_less(key, #[trigger] before[j].0),
    ensures
        keys_strictly_increasing(before.insert(p, (key, value))),
{
    let after = before.insert(p, (key, value));
    assert forall|i: int, j: int| 0 <= i < j < after.len() implies text_less(
        #[trigger] after[i].0,
        #[trigger] after[j].0,
    ) by {
        if j < p {
            assert(after[i] == before[i] && after[j] == before[j]);
        } else if j == p {
            assert(after[i] == before[i]);
        } else if i == p {
            assert(after[j] == before[j - 1]);
        } else if i < p {
            assert(after[i] == before[i] && after[j] == before[j - 1]);
            lemma_text_less_transitive(before[i].0, key, before[j - 1].0);
        } else {
            assert(after[i] == before[i - 1] && after[j] == before[j - 1]);
        }
    }
}

/// With keys in increasing order, the value looked up for `k` is the value
/// of the entry holding `k`, and there is none where no entry holds it.
proof fn lemma_lookup_sorted(entries: Seq<(Seq<char>, Seq<char>)>, k: Seq<char>)
    requires
        keys_strictly_increasing(entries),
    ensures
        forall|i: int|
            0 <= i < entries.len() && #[trigger] entries[i].0 == k ==> lookup_entry(entries, k)
                == Some(entries[i].1),
        (forall|i: int| 0 <= i < entries.len() ==> #[trigger] entries[i].0 != k) ==> lookup_entry(
            entries,
            k,
        ) is None,
    decreases entries.len(),
{
    if entries.len() > 0 {
        let rest = entries.drop_first();
        assert forall|a: int, b: int| 0 <= a < b < rest.len() implies text_less(
            #[trigger] rest[a].0,
            #[trigger] rest[b].0,
        ) by {
            assert(rest[a] == entries[a + 1] && rest[b] == entries[b + 1]);
        }
        lemma_lookup_sorted(rest, k);
        assert forall|i: int|
            0 <= i < entries.len() && #[trigger] entries[i].0 == k implies lookup_entry(entries, k)
                == Some(entries[i].1) by {
            if i > 0 {
                assert(text_less(entries[0].0, entries[i].0));
                lemma_text_less_irreflexive(entries[0].0);
                assert(entries[0].0 != k);
                assert(rest[i - 1] == entries[i]);
            }
        }
        if forall|i: int| 0 <= i < entries.len() ==> #[trigger] entries[i].0 != k {
            assert forall|i: int| 0 <= i < rest.len() implies #[trigger] rest[i].0 != k by {
                assert(rest[i] == entries[i + 1]);
            }
        }
    }
}

/// What a read gives back of a write: after `(key, value)` is set, the value
/// looked up for `key` is `value`, and every other key keeps its value.
pub proof fn lemma_insert_then_lookup(
    before: Seq<(Seq<char>, Seq<char>)>,
    p: int,
    key: Seq<char>,
    value: Seq<char>,
    after: Seq<(Seq<char>, Seq<char>)>,
    k: Seq<char>,
)
    requires
        keys_strictly_increasing(before),
        0 <= p <= before.len(),
        insert_result(before, p, key, value, after),
    ensures
        keys_strictly_increasing(after),
        lookup_entry(after, k) == if k == key {
            Some(value)
        } else {
            lookup_entry(before, k)
        },
{
    if p < before.len() && before[p].0 == key {
        assert forall|a: int, b: int| 0 <= a < b < after.len() implies text_less(
            #[trigger] after[a].0,
            #[trigger] after[b].0,
        ) by {
            assert(after[a].0 == before[a].0 && after[b].0 == before[b].0);
        }
    } else {
        lemma_insert_keeps_order(before, p, key, value);
    }
    lemma_lookup_sorted(before, k);
    lemma_lookup_sorted(after, k);
    if k == key {
        assert(after[p] == (key, value));
        assert(0 <= p < after.len() && after[p].0 == k);
        assert(lookup_entry(after, k) == Some(after[p].1));
    } else if exists|i: int| 0 <= i < before.len() && #[trigger] before[i].0 == k {
        let i = choose|i: int| 0 <= i < before.len() && #[trigger] before[i].0 == k;
        assert(lookup_entry(before, k) == Some(before[i].1));
        if p < before.len() && before[p].0 == key {
            assert(after[i] == before[i]);
            assert(lookup_entry(after, k) == Some(after[i].1));
        } else if i < p {
            assert(after[i] == before[i]);
            assert(lookup_entry(after, k) == Some(after[i].1));
        } else {
            assert(after[i + 1] == before[i]);
            assert(lookup_entry(after, k) == Some(after[i + 1].1));
        }
    } else {
        assert(lookup_entry(before, k) is None);
        assert forall|j: int| 0 <= j < after.len() implies #[trigger] after[j].0 != k by {
            if p < before.len() && before[p].0 == key {
                if j != p {
                    assert(after[j] == before[j]);
                }
            } else if j < p {
                assert(after[j] == before[j]);
            } else if j > p {
                assert(after[j] == before[j - 1]);
            }
        }
    }
}

/// The value of `key` given last among the pairs, if any pair gives one.
pub open spec fn last_value(pairs: Seq<(Seq<char>, Seq<char>)>, key: Seq<char>) -> Option<Seq<char>>
    decreases pairs.len(),
{
    if pairs.len() == 0 {
        None
    } else if pairs.last().0 == key {
        Some(pairs.last().1)
    } else {
        last_value(pairs.drop_last(), key)
    }
}

impl CorrectionMap {
    /// The map of the pairs, a later pair of a key winning over an earlier.
    pub fn from_pairs(pairs: &Vec<(String, String)>) -> (m: Self)
        ensures
            forall|k: Seq<char>|
                #[trigger] lookup_entry(m.entries(), k) == last_value(
                    pairs@.map_values(|e: (String, String)| (e.0@, e.1@)),
                    k,
                ),
    {
        let ghost views = pairs@.map_values(|e: (String, String)| (e.0@, e.1@));
        let mut m = CorrectionMap::new();
        let mut i: usize = 0;
        let n = pairs.len();
        assert forall|k: Seq<char>| #[trigger] lookup_entry(m.entries(), k) == last_value(
            views.take(0),
            k,
        ) by {
            assert(views.take(0).len() == 0);
        }
        while i < n
            invariant
                i <= n,
                n == pairs@.len(),
                views == pairs@.map_values(|e: (String, String)| (e.0@, e.1@)),
                forall|k: Seq<char>|
                    #[trigger] lookup_entry(m.entries(), k) == last_value(views.take(i as int), k),
            decreases n - i,
        {
            let key = pairs[i].0.clone();
            let value = pairs[i].1.clone();
            assert(key@ == views[i as int].0 && value@ == views[i as int].1);
            let ghost before = m.entries();
            let ghost kk = key@;
            let ghost vv = value@;
            proof {
                use_type_invariant(&m);
            }
            m.insert(key, value);
            proof {
                let after = m.entries();
                let p = choose|p: int|
                    0 <= p <= before.len() && #[trigger] insert_result(before, p, kk, vv, after);
                assert(views.take(i + 1).drop_last() =~= views.take(i as int));
                assert(views.take(i + 1).last() == (kk, vv));
                assert forall|k: Seq<char>| #[trigger] lookup_entry(m.entries(), k) == last_value(
                    views.take(i + 1),
                    k,
                ) by {
                    lemma_insert_then_lookup(before, p, kk, vv, after, k);
                }
            }
            i += 1;
        }
        assert(views.take(n as int) =~= views);
        m
    }
}

impl Clone for CorrectionMap {
    fn clone(&self) -> (m: Self)
        ensures
            m.entries() == self.entries(),
    {
        self.duplicate()
    }
}

/// The OCR corrections a new configuration starts with: `湖` read for `溯`
/// and `铜` read for `锏`.
pub open spec fn default_correction_entries() -> Seq<(Seq<char>, Seq<char>)> {
    seq![(seq!['湖'], seq!['溯']), (seq!['铜'], seq!['锏'])]
}

/// The correction map a new configuration starts with.
pub fn default_corrections() -> (m: CorrectionMap)
    ensures
        m.entries() == default_correction_entries(),
{
    let mut m = CorrectionMap::new();
    let k1 = "铜";
    let v1 = "锏";
    let k2 = "湖";
    let v2 = "溯";
    proof {
        reveal_strlit("铜");
        reveal_strlit("锏");
        reveal_strlit("湖");
        reveal_strlit("溯");
    }
    assert(k1@ =~= seq!['铜']);
    assert(v1@ =~= seq!['锏']);
    assert(k2@ =~= seq!['湖']);
    assert(v2@ =~= seq!['溯']);
    let ghost e0 = m.entries();
    m.insert(String::from_str(k1), String::from_str(v1));
    let ghost e1 = m.entries();
    assert(e1 =~= seq![(seq!['铜'], seq!['锏'])]) by {
        let p = choose|p: int| 0 <= p <= e0.len() && #[trigger] insert_result(e0, p, seq!['铜'], seq!['锏'], e1);
        assert(p == 0);
    }
    m.insert(String::from_str(k2), String::from_str(v2));
    let ghost e2 = m.entries();
    assert(!text_less(seq!['铜'], seq!['湖']));
    assert(e2 =~= default_correction_entries()) by {
        let p = choose|p: int| 0 <= p <= e1.len() && #[trigger] insert_result(e1, p, seq!['湖'], seq!['溯'], e2);
        if p == 1 {
            assert(text_less(e1[0].0, seq!['湖']));
        }
        assert(p == 0);
        assert(e1[0].0 != seq!['湖']) by {
            assert(e1[0].0[0] != seq!['湖'][0]);
        }
    }
    m
}

/// The part of the automation's configuration that the decisions read: the
/// four name lists, the OCR corrections, the two refresh switches and the
/// interface scale.
#[derive(Debug, Clone)]
pub struct StrategyConfig {
    pub item_list: Vec<String>,
    pub operator_list: Vec<String>,
    pub buy_only_operator_list: Vec<String>,
    pub six_star_list: Vec<String>,
    pub ocr_correction_map: CorrectionMap,
    pub refresh_keep_mode: bool,
    pub auto_reverse_auto_refresh: bool,
    pub ui_scale: UiScale,
}

/// The item a new configuration keeps buying: `人事部文档`.
pub open spec fn default_item() -> Seq<char> {
    seq!['人', '事', '部', '文', '档']
}

impl Default for StrategyConfig {
    fn default() -> (c: Self)
        ensures
            string_views(c.item_list@) == seq![default_item()],
            c.operator_list@.len() == 0,
            c.buy_only_operator_list@.len() == 0,
            c.six_star_list@.len() == 0,
            c.ocr_correction_map.entries() == default_correction_entries(),
            !c.refresh_keep_mode,
            !c.auto_reverse_auto_refresh,
            c.ui_scale == UiScale::Scale90,
    {
        let item = "人事部文档";
        proof {
            reveal_strlit("人事部文档");
        }
        assert(item@ =~= default_item());
        let mut item_list: Vec<String> = Vec::new();
        item_list.push(String::from_str(item));
        assert(string_views(item_list@) =~= seq![default_item()]);
        StrategyConfig {
            item_list,
            operator_list: Vec::new(),
            buy_only_operator_list: Vec::new(),
            six_star_list: Vec::new(),
            ocr_correction_map: default_corrections(),
            refresh_keep_mode: false,
            auto_reverse_auto_refresh: false,
            ui_scale: UiScale::Scale90,
        }
    }
}

/// A predefined choice offered in the interface.
#[derive(Debug, Clone)]
pub struct PresetEntry {
    pub label: String,
    pub value: String,
}

/// The predefined items and buy-only operators offered in the interface.
#[derive(Debug, Clone)]
pub struct PresetCatalog {
    pub predefined_items: Vec<PresetEntry>,
    pub predefined_buy_only_operators: Vec<PresetEntry>,
}

impl Default for PresetCatalog {
    fn default() -> (c: Self)
        ensures
            c.predefined_items@.len() == 0,
            c.predefined_buy_only_operators@.len() == 0,
    {
        PresetCatalog { predefined_items: Vec::new(), predefined_buy_only_operators: Vec::new() }
    }
}

/// Everything that is saved between runs.
#[derive(Debug, Clone)]
pub struct PersistedState {
    pub app_settings: AppSettings,
    pub strategy_config: StrategyConfig,
    pub presets: PresetCatalog,
}

/// The settings imported from an older installation: with its option file,
/// the window title it names (`明日方舟` when it names none) and the scale of
/// its advanced settings (90% when none is given); without it, the defaults.
pub fn imported_app_settings(
    has_option_file: bool,
    window_title: Option<String>,
    ui_scale: Option<UiScale>,
) -> (s: AppSettings)
    ensures
        s.controller == ControllerKind::Win32,
        s.recent_windows@.len() == 0,
        has_option_file && window_title is Some ==> s.selected_window_title@
            == window_title->0@,
        !(has_option_file && window_title is Some) ==> s.selected_window_title@
            == default_window_title(),
        s.ui_scale == (if has_option_file && ui_scale is Some {
            ui_scale->0
        } else {
            UiScale::Scale90
        }),
{
    if has_option_file {
        let title = match window_title {
            Some(t) => t,
            None => default_window_title_string(),
        };
        let scale = match ui_scale {
            Some(s) => s,
            None => UiScale::Scale90,
        };
        AppSettings {
            controller: ControllerKind::Win32,
            selected_window_title: title,
            ui_scale: scale,
            recent_windows: Vec::new(),
        }
    } else {
        AppSettings::default()
    }
}

/// The strategy imported from an older installation: its four name lists;
/// with its advanced settings file, the corrections that file lists (the
/// default corrections where it lists none) and its scale (90% where it
/// gives none); without that file, the default corrections and 90%.
pub fn imported_strategy(
    item_list: Vec<String>,
    operator_list: Vec<String>,
    buy_only_operator_list: Vec<String>,
    six_star_list: Vec<String>,
    has_advanced_file: bool,
    corrections: Option<Vec<(String, String)>>,
    ui_scale: Option<UiScale>,
) -> (c: StrategyConfig)
    ensures
        c.item_list@ == item_list@,
        c.operator_list@ == operator_list@,
        c.buy_only_operator_list@ == buy_only_operator_list@,
        c.six_star_list@ == six_star_list@,
        has_advanced_file && corrections is Some ==> forall|k: Seq<char>|
            #[trigger] lookup_entry(c.ocr_correction_map.entries(), k) == last_value(
                corrections->0@.map_values(|e: (String, String)| (e.0@, e.1@)),
                k,
            ),
        !(has_advanced_file && corrections is Some) ==> c.ocr_correction_map.entries()
            == default_correction_entries(),
        c.ui_scale == (if has_advanced_file && ui_scale is Some {
            ui_scale->0
        } else {
            UiScale::Scale90
        }),
        !c.refresh_keep_mode,
        !c.auto_reverse_auto_refresh,
{
    let ocr_correction_map = match corrections {
        Some(pairs) => {
            if has_advanced_file {
                CorrectionMap::from_pairs(&pairs)
            } else {
                default_corrections()
            }
        },
        None => default_corrections(),
    };
    let scale = match ui_scale {
        Some(s) => {
            if has_advanced_file {
                s
            } else {
                UiScale::Scale90
            }
        },
        None => UiScale::Scale90,
    };
    StrategyConfig {
        item_list,
        operator_list,
        buy_only_operator_list,
        six_star_list,
        ocr_correction_map,
        refresh_keep_mode: false,
        auto_reverse_auto_refresh: false,
        ui_scale: scale,
    }
}

/// The separator placed between names when a list is shown for editing.
pub open spec fn list_join_separator() -> Seq<char> {
    seq!['、']
}

/// The four name lists as editable texts.
#[derive(Debug, Clone)]
pub struct EditableLists {
    pub items: String,
    pub operators: String,
    pub buy_only_operators: String,
    pub six_star_operators: String,
}

impl EditableLists {
    /// Each list of the strategy joined with `、`.
    pub fn from_strategy(strategy: &StrategyConfig) -> (lists: Self)
        ensures
            lists.items@ == join_with(string_views(strategy.item_list@), list_join_separator()),
            lists.operators@ == join_with(
                string_views(strategy.operator_list@),
                list_join_separator(),
            ),
            lists.buy_only_operators@ == join_with(
                string_views(strategy.buy_only_operator_list@),
                list_join_separator(),
            ),
            lists.six_star_operators@ == join_with(
                string_views(strategy.six_star_list@),
                list_join_separator(),
            ),
    {
        let sep = "、";
        proof {
            reveal_strlit("、");
        }
        assert(sep@ =~= list_join_separator());
        EditableLists {
            items: join_strings(&strategy.item_list, sep),
            operators: join_strings(&strategy.operator_list, sep),
            buy_only_operators: join_strings(&strategy.buy_only_operator_list, sep),
            six_star_operators: join_strings(&strategy.six_star_list, sep),
        }
    }

    /// Replaces the four lists of the strategy by the names in the texts;
    /// the rest of the strategy is kept.
    pub fn apply_to(&self, strategy: &mut StrategyConfig)
        ensures
            string_views(final(strategy).item_list@) == name_tokens(self.items@),
            string_views(final(strategy).operator_list@) == name_tokens(self.operators@),
            string_views(final(strategy).buy_only_operator_list@) == name_tokens(
                self.buy_only_operators@,
            ),
            string_views(final(strategy).six_star_list@) == name_tokens(
                self.six_star_operators@,
            ),
            final(strategy).ocr_correction_map.entries() == old(
                strategy,
            ).ocr_correction_map.entries(),
            final(strategy).refresh_keep_mode == old(strategy).refresh_keep_mode,
            final(strategy).auto_reverse_auto_refresh == old(strategy).auto_reverse_auto_refresh,
            final(strategy).ui_scale == old(strategy).ui_scale,
    {
        strategy.item_list = parse_name_list(self.items.as_str());
        strategy.operator_list = parse_name_list(self.operators.as_str());
        strategy.buy_only_operator_list = parse_name_list(self.buy_only_operators.as_str());
        strategy.six_star_list = parse_name_list(self.six_star_operators.as_str());
    }
}

/// A name that survives editing unchanged: not empty, without white space at
/// either end, and without separator characters.
pub open spec fn clean_name(name: Seq<char>) -> bool {
    &&& name.len() > 0
    &&& trim(name) == name
    &&& forall|i: int| 0 <= i < name.len() ==> !is_list_separator(#[trigger] name[i])
}

proof fn lemma_split_append_plain(s: Seq<char>, t: Seq<char>)
    requires
        forall|i: int| 0 <= i < t.len() ==> !is_list_separator(#[trigger] t[i]),
    ensures
        split_pieces(s + t) == split_pieces(s).update(
            split_pieces(s).len() - 1,
            split_pieces(s).last() + t,
        ),
        split_pieces(s + t).len() == split_pieces(s).len(),
    decreases t.len(),
{
    lemma_split_pieces_nonempty(s);
    if t.len() == 0 {
        assert(s + t =~= s);
        assert(split_pieces(s).last() + t =~= split_pieces(s).last());
        assert(split_pieces(s).update(split_pieces(s).len() - 1, split_pieces(s).last())
            =~= split_pieces(s));
    } else {
        let t0 = t.drop_last();
        assert forall|i: int| 0 <= i < t0.len() implies !is_list_separator(#[trigger] t0[i]) by {
            assert(t0[i] == t[i]);
        }
        lemma_split_append_plain(s, t0);
        assert((s + t).drop_last() =~= s + t0);
        assert((s + t).last() == t.last());
        assert(!is_list_separator(t[t.len() - 1]));
        let prev = split_pieces(s + t0);
        assert(split_pieces(s).last() + t =~= (split_pieces(s).last() + t0).push(t.last()));
        assert(prev.update(prev.len() - 1, prev.last().push(t.last())) =~= split_pieces(s).update(
            split_pieces(s).len() - 1,
            split_pieces(s).last() + t,
        ));
    }
}

proof fn lemma_split_joined(names: Seq<Seq<char>>)
    requires
        names.len() > 0,
        forall|i: int| 0 <= i < names.len() ==> clean_name(#[trigger] names[i]),
    ensures
        split_pieces(join_with(names, list_join_separator())) == names,
    decreases names.len(),
{
    let sep = list_join_separator();
    if names.len() == 1 {
        assert(join_with(names, sep) == names[0]);
        assert(clean_name(names[0]));
        lemma_split_append_plain(Seq::<char>::empty(), names[0]);
        assert(Seq::<char>::empty() + names[0] =~= names[0]);
        assert(split_pieces(Seq::<char>::empty()) =~= seq![Seq::<char>::empty()]);
        assert(Seq::<char>::empty() + names[0] =~= names[0]);
        assert(seq![Seq::<char>::empty()].update(0, Seq::<char>::empty() + names[0]) =~= names);
    } else {
        let init = names.drop_last();
        assert forall|i: int| 0 <= i < init.len() implies clean_name(#[trigger] init[i]) by {
            assert(init[i] == names[i]);
        }
        lemma_split_joined(init);
        let a = join_with(init, sep);
        let last = names.last();
        assert(clean_name(names[names.len() - 1]));
        assert(join_with(names, sep) == a + sep + last);
        let with_sep = a + sep;
        assert(with_sep.drop_last() =~= a);
        assert(with_sep.last() == '、');
        assert(split_pieces(with_sep) == init.push(Seq::<char>::empty()));
        lemma_split_append_plain(with_sep, last);
        assert(Seq::<char>::empty() + last =~= last);
        assert(init.push(Seq::<char>::empty()).update(init.len() as int, Seq::<char>::empty() + last)
            =~= names);
    }
}

/// Showing clean names for editing and reading the text back gives the same
/// names: the four lists survive an edit that changes nothing.
pub proof fn lemma_edit_round_trip(names: Seq<Seq<char>>)
    requires
        forall|i: int| 0 <= i < names.len() ==> clean_name(#[trigger] names[i]),
    ensures
        name_tokens(join_with(names, list_join_separator())) == names,
{
    let sep = list_join_separator();
    let joined = join_with(names, sep);
    reveal(Seq::filter);
    if names.len() == 0 {
        assert(joined.len() == 0);
        assert(trim(joined) =~= Seq::<char>::empty());
        assert(split_pieces(Seq::<char>::empty()) =~= seq![Seq::<char>::empty()]);
        let mapped = seq![Seq::<char>::empty()].map_values(|p: Seq<char>| trim(p));
        assert(trim_start(Seq::<char>::empty()) =~= Seq::<char>::empty());
        assert(trim(Seq::<char>::empty()) =~= Seq::<char>::empty());
        assert(mapped =~= seq![Seq::<char>::empty()]);
        assert(mapped.last().len() == 0);
        assert(mapped.drop_last() =~= Seq::<Seq<char>>::empty());
        assert(mapped.drop_last().filter(|p: Seq<char>| p.len() > 0) =~= Seq::<Seq<char>>::empty());
        assert(mapped.filter(|p: Seq<char>| p.len() > 0) =~= Seq::<Seq<char>>::empty());
    } else {
        lemma_joined_trimmed(names);
        lemma_split_joined(names);
        let mapped = names.map_values(|p: Seq<char>| trim(p));
        assert(mapped =~= names) by {
            assert forall|i: int| 0 <= i < names.len() implies #[trigger] mapped[i] == names[i] by {
                assert(clean_name(names[i]));
            }
        }
        lemma_filter_keeps_all(names);
    }
}

proof fn lemma_filter_keeps_all(names: Seq<Seq<char>>)
    requires
        forall|i: int| 0 <= i < names.len() ==> (#[trigger] names[i]).len() > 0,
    ensures
        names.filter(|p: Seq<char>| p.len() > 0) == names,
    decreases names.len(),
{
    reveal(Seq::filter);
    if names.len() > 0 {
        let init = names.drop_last();
        assert forall|i: int| 0 <= i < init.len() implies (#[trigger] init[i]).len() > 0 by {
            assert(init[i] == names[i]);
        }
        lemma_filter_keeps_all(init);
        assert(names[names.len() - 1].len() > 0);
        assert(init.push(names.last()) =~= names);
    }
}

proof fn lemma_join_ends(names: Seq<Seq<char>>)
    requires
        names.len() > 0,
        forall|i: int| 0 <= i < names.len() ==> clean_name(#[trigger] names[i]),
    ensures
        join_with(names, list_join_separator()).len() > 0,
        join_with(names, list_join_separator())[0] == names[0][0],
        join_with(names, list_join_separator()).last() == names.last().last(),
    decreases names.len(),
{
    let sep = list_join_separator();
    assert(clean_name(names[0]));
    assert(clean_name(names[names.len() - 1]));
    if names.len() > 1 {
        let init = names.drop_last();
        assert forall|i: int| 0 <= i < init.len() implies clean_name(#[trigger] init[i]) by {
            assert(init[i] == names[i]);
        }
        lemma_join_ends(init);
        assert(init[0] == names[0]);
    }
}

proof fn lemma_joined_trimmed(names: Seq<Seq<char>>)
    requires
        names.len() > 0,
        forall|i: int| 0 <= i < names.len() ==> clean_name(#[trigger] names[i]),
    ensures
        trim(join_with(names, list_join_separator())) == join_with(names, list_join_separator()),
{
    let j = join_with(names, list_join_separator());
    lemma_join_ends(names);
    let first = names[0];
    let last = names.last();
    assert(clean_name(first));
    assert(clean_name(names[names.len() - 1]));
    lemma_clean_ends(first);
    lemma_clean_ends(last);
    assert(trim_start(j) == j);
    assert(trim_end(j) == j);
}

proof fn lemma_clean_ends(name: Seq<char>)
    requires
        clean_name(name),
    ensures
        !is_white_space(name[0]),
        !is_white_space(name.last()),
{
    if is_white_space(name[0]) {
        assert(trim_start(name) == trim_start(name.drop_first()));
        lemma_trim_start_shorter(name.drop_first());
        lemma_trim_end_shorter(trim_start(name.drop_first()));
    }
    if is_white_space(name.last()) {
        lemma_trim_start_shorter(name);
        if trim_start(name).len() == name.len() {
            assert(trim_start(name) == name) by {
                lemma_trim_start_suffix(name);
            }
            assert(trim_end(name) == trim_end(name.drop_last()));
            lemma_trim_end_shorter(name.drop_last());
        }
    }
}

proof fn lemma_trim_start_shorter(s: Seq<char>)
    ensures
        trim_start(s).len() <= s.len(),
    decreases s.len(),
{
    if s.len() > 0 && is_white_space(s[0]) {
        lemma_trim_start_shorter(s.drop_first());
    }
}

proof fn lemma_trim_end_shorter(s: Seq<char>)
    ensures
        trim_end(s).len() <= s.len(),
    decreases s.len(),
{
    if s.len() > 0 && is_white_space(s.last()) {
        lemma_trim_end_shorter(s.drop_last());
    }
}

proof fn lemma_trim_start_suffix(s: Seq<char>)
    ensures
        trim_start(s) == s.subrange(s.len() - trim_start(s).len(), s.len() as int),
    decreases s.len(),
{
    lemma_trim_start_shorter(s);
    if s.len() > 0 && is_white_space(s[0]) {
        lemma_trim_start_suffix(s.drop_first());
        lemma_trim_start_shorter(s.drop_first());
        assert(s.drop_first().subrange(
            s.drop_first().len() - trim_start(s.drop_first()).len(),
            s.drop_first().len() as int,
        ) =~= s.subrange(s.len() - trim_start(s).len(), s.len() as int));
    } else {
        assert(s.subrange(0, s.len() as int) =~= s);
    }
}

} // verus!
