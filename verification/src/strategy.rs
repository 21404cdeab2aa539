//! Matching recognised card names against the configured lists, and planning
//! the purchases of one shop round.
use vstd::prelude::*;

use crate::config::{lookup_entry, CorrectionMap};
use crate::text::{
    chars_of, contains_chars, contains_text, remove_char, replace_all, replace_chars, string_of,
    string_views, trim, trim_str, without_char, compare_text, TextOrder,
};

verus! {

/// A card read from one shop slot.
#[derive(Debug, Clone)]
pub struct RecognizedCard {
    pub slot: usize,
    pub name: String,
    pub price: i32,
}

/// What to do with a recognised card.
#[derive(Debug, Clone, Copy, PartialEq, Eq)]
pub enum PlannedActionKind {
    BuyItem,
    BuyOnlyOperator,
    BuySellOperator,
    BuySellCheapOperator,
}

/// The display name of an action kind.
pub open spec fn action_kind_label(kind: PlannedActionKind) -> Seq<char> {
    match kind {
        PlannedActionKind::BuyItem => seq!['购', '买', '道', '具'],
        PlannedActionKind::BuyOnlyOperator => seq!['保', '留', '干', '员'],
        PlannedActionKind::BuySellOperator => seq!['倒', '转', '干', '员'],
        PlannedActionKind::BuySellCheapOperator => seq!['低', '费', '倒', '转'],
    }
}

impl PlannedActionKind {
    /// The display name of the action kind.
    pub fn label(self) -> (s: &'static str)
        ensures
            s@ == action_kind_label(self),
    {
        match self {
            PlannedActionKind::BuyItem => {
                let s = "购买道具";
                proof {
                    reveal_strlit("购买道具");
                }
                assert(s@ =~= action_kind_label(self));
                s
            },
            PlannedActionKind::BuyOnlyOperator => {
                let s = "保留干员";
                proof {
                    reveal_strlit("保留干员");
                }
                assert(s@ =~= action_kind_label(self));
                s
            },
            PlannedActionKind::BuySellOperator => {
                let s = "倒转干员";
                proof {
                    reveal_strlit("倒转干员");
                }
                assert(s@ =~= action_kind_label(self));
                s
            },
            PlannedActionKind::BuySellCheapOperator => {
                let s = "低费倒转";
                proof {
                    reveal_strlit("低费倒转");
                }
                assert(s@ =~= action_kind_label(self));
                s
            },
        }
    }
}

/// A purchase planned for one slot.
#[derive(Debug, Clone)]
pub struct PlannedAction {
    pub kind: PlannedActionKind,
    pub slot: usize,
    pub name: String,
    pub price: i32,
}

/// An action as plain values: kind, slot, name, price.
pub type ActionView = (PlannedActionKind, usize, Seq<char>, i32);

/// The plain values of an action.
pub open spec fn action_view(a: PlannedAction) -> ActionView {
    (a.kind, a.slot, a.name@, a.price)
}

/// The plain values of a sequence of actions.
pub open spec fn action_views(s: Seq<PlannedAction>) -> Seq<ActionView> {
    s.map_values(|a: PlannedAction| action_view(a))
}

/// Each correction of the map applied in turn, in map order: a misread text
/// that occurs is replaced everywhere.
pub open spec fn apply_corrections(s: Seq<char>, entries: Seq<(Seq<char>, Seq<char>)>) -> Seq<char>
    decreases entries.len(),
{
    if entries.len() == 0 {
        s
    } else {
        let next = if contains_text(s, entries[0].0) {
            replace_all(s, entries[0].0, entries[0].1)
        } else {
            s
        };
        apply_corrections(next, entries.drop_first())
    }
}

/// The normalised form of a recognised text: trimmed; a text that is a key of
/// the map as a whole becomes its value; then every correction is applied.
pub open spec fn normalized(text: Seq<char>, entries: Seq<(Seq<char>, Seq<char>)>) -> Seq<char> {
    let cleaned = trim(text);
    if cleaned.len() == 0 {
        cleaned
    } else {
        let whole = match lookup_entry(entries, cleaned) {
            Some(full) => full,
            None => cleaned,
        };
        apply_corrections(whole, entries)
    }
}

/// Trims a recognised text and applies the OCR corrections.
pub fn normalize_text(text: &str, correction_map: &CorrectionMap) -> (r: String)
    ensures
        r@ == normalized(text@, correction_map.entries()),
{
    let cleaned = trim_str(text);
    if cleaned.len() == 0 {
        return string_of(&cleaned);
    }
    let mut current = match correction_map.get(&cleaned) {
        Some(full) => chars_of(full.as_str()),
        None => cleaned,
    };
    let ghost entries = correction_map.entries();
    let ghost whole = current@;
    let n = correction_map.len();
    let mut i: usize = 0;
    assert(entries.subrange(0, n as int) =~= entries);
    while i < n
        invariant
            n == entries.len(),
            entries == correction_map.entries(),
            i <= n,
            apply_corrections(whole, entries) == apply_corrections(
                current@,
                entries.subrange(i as int, n as int),
            ),
        decreases n - i,
    {
        let (wrong, right) = correction_map.entry(i);
        let wrong_chars = chars_of(wrong.as_str());
        let right_chars = chars_of(right.as_str());
        let ghost rest = entries.subrange(i as int, n as int);
        assert(rest.drop_first() =~= entries.subrange(i + 1, n as int));
        if contains_chars(&current, &wrong_chars) {
            current = replace_chars(&current, &wrong_chars, &right_chars);
        }
        i = i + 1;
    }
    assert(entries.subrange(n as int, n as int).len() == 0);
    string_of(&current)
}

/// The Levenshtein distance of two texts: the least number of
/// single-character insertions, deletions and substitutions that turn one
/// into the other.
pub open spec fn levenshtein_distance(a: Seq<char>, b: Seq<char>) -> nat
    decreases a.len() + b.len(),
{
    if a.len() == 0 {
        b.len()
    } else if b.len() == 0 {
        a.len()
    } else {
        let substitute = levenshtein_distance(a.drop_last(), b.drop_last()) + if a.last() == b.last() {
            0nat
        } else {
            1nat
        };
        let delete = levenshtein_distance(a.drop_last(), b) + 1;
        let insert = levenshtein_distance(a, b.drop_last()) + 1;
        if substitute <= delete && substitute <= insert {
            substitute
        } else if delete <= insert {
            delete
        } else {
            insert
        }
    }
}

/// `strsim::levenshtein`: the Levenshtein distance of the two texts, counted
/// in characters.
#[verifier::external_body]
fn levenshtein(a: &str, b: &str) -> (d: usize)
    ensures
        d == levenshtein_distance(a@, b@),
{
    strsim::levenshtein(a, b)
}

/// The number of bytes of the UTF-8 encoding of a text, as `str::len`
/// reports it.
pub open spec fn byte_len(s: Seq<char>) -> int {
    (vstd::utf8::encode_utf8(s).len() as usize) as int
}

/// Whether a Levenshtein distance makes two texts similar: the normalised
/// similarity `1 - distance / max(len_a, len_b)` is at least `0.6`, in exact
/// arithmetic `5 * distance <= 2 * max(len_a, len_b)`.
pub open spec fn similar_by_distance(distance: int, len_a: int, len_b: int) -> bool {
    let longest = if len_a >= len_b {
        len_a
    } else {
        len_b
    };
    5 * distance <= 2 * longest
}

/// Decides similarity from a Levenshtein distance and the character counts
/// of the two texts.
pub fn is_similar(distance: usize, len_a: usize, len_b: usize) -> (b: bool)
    ensures
        b == similar_by_distance(distance as int, len_a as int, len_b as int),
{
    let longest: u128 = if len_a >= len_b {
        len_a as u128
    } else {
        len_b as u128
    };
    5 * (distance as u128) <= 2 * longest
}

/// Whether a (normalised, non-empty) recognised text matches one list entry:
/// equal once spaces are removed; or, when the space-free byte lengths differ
/// by at most one, the entry occurs in the text (with or without spaces), or
/// the space-free entry has at least two bytes and is similar to the
/// space-free text by Levenshtein distance.
pub open spec fn target_matches(norm: Seq<char>, target: Seq<char>) -> bool {
    let norm_ns = without_char(norm, ' ');
    let target_ns = without_char(target, ' ');
    &&& target.len() > 0
    &&& {
        ||| target_ns == norm_ns
        ||| {
            &&& -1 <= byte_len(target_ns) - byte_len(norm_ns) <= 1
            &&& {
                ||| contains_text(norm, target)
                ||| contains_text(norm_ns, target_ns)
                ||| byte_len(target_ns) >= 2 && similar_by_distance(
                    levenshtein_distance(target_ns, norm_ns) as int,
                    target_ns.len() as int,
                    norm_ns.len() as int,
                )
            }
        }
    }
}

/// Whether a recognised text matches some entry of a list.
pub open spec fn list_match(
    text: Seq<char>,
    list: Seq<Seq<char>>,
    entries: Seq<(Seq<char>, Seq<char>)>,
) -> bool {
    let norm = normalized(text, entries);
    norm.len() > 0 && exists|i: int| 0 <= i < list.len() && #[trigger] target_matches(norm, list[i])
}

fn matches_target(norm: &Vec<char>, norm_ns: &Vec<char>, norm_ns_bytes: usize, target: &String) -> (b:
    bool)
    requires
        norm_ns@ == without_char(norm@, ' '),
        norm_ns_bytes == byte_len(norm_ns@),
    ensures
        b == target_matches(norm@, target@),
{
    let target_chars = chars_of(target.as_str());
    if target_chars.len() == 0 {
        return false;
    }
    let target_ns = remove_char(&target_chars, ' ');
    if matches!(compare_text(&target_ns, norm_ns), TextOrder::Equal) {
        return true;
    }
    let target_ns_string = string_of(&target_ns);
    let target_ns_bytes = target_ns_string.as_str().len();
    let within_one = if target_ns_bytes >= norm_ns_bytes {
        target_ns_bytes - norm_ns_bytes <= 1
    } else {
        norm_ns_bytes - target_ns_bytes <= 1
    };
    if !within_one {
        return false;
    }
    if contains_chars(norm, &target_chars) || contains_chars(norm_ns, &target_ns) {
        return true;
    }
    if target_ns_bytes >= 2 {
        let norm_ns_string = string_of(norm_ns);
        let d = levenshtein(target_ns_string.as_str(), norm_ns_string.as_str());
        return is_similar(d, target_ns.len(), norm_ns.len());
    }
    false
}

/// Whether the recognised text, once normalised, matches an entry of the list.
pub fn is_list_match(ocr_text: &str, target_list: &[String], correction_map: &CorrectionMap) -> (b:
    bool)
    ensures
        b == list_match(ocr_text@, string_views(target_list@), correction_map.entries()),
{
    let normalized_text = normalize_text(ocr_text, correction_map);
    let norm = chars_of(normalized_text.as_str());
    if norm.len() == 0 {
        return false;
    }
    let norm_ns = remove_char(&norm, ' ');
    let norm_ns_string = string_of(&norm_ns);
    let norm_ns_bytes = norm_ns_string.as_str().len();
    let ghost list = string_views(target_list@);
    let mut i: usize = 0;
    while i < target_list.len()
        invariant
            i <= target_list@.len(),
            list == string_views(target_list@),
            norm@ == normalized(ocr_text@, correction_map.entries()),
            norm@.len() > 0,
            norm_ns@ == without_char(norm@, ' '),
            norm_ns_bytes == byte_len(norm_ns@),
            forall|j: int| 0 <= j < i ==> !#[trigger] target_matches(norm@, list[j]),
        decreases target_list@.len() - i,
    {
        if matches_target(&norm, &norm_ns, norm_ns_bytes, &target_list[i]) {
            assert(target_matches(norm@, list[i as int]));
            assert(list.len() == target_list@.len());
            assert(normalized(ocr_text@, correction_map.entries()).len() > 0);
            return true;
        }
        i = i + 1;
    }
    false
}

/// The action a card calls for: listed items are always bought; the last
/// slot takes nothing else; then buy-only operators, buy-and-sell operators;
/// cards on the do-not-touch list are left; any other card costing 0 or 1 is
/// bought and sold.
pub open spec fn classification(
    name: Seq<char>,
    slot: usize,
    price: i32,
    item_list: Seq<Seq<char>>,
    operator_list: Seq<Seq<char>>,
    buy_only_operator_list: Seq<Seq<char>>,
    six_star_list: Seq<Seq<char>>,
    entries: Seq<(Seq<char>, Seq<char>)>,
) -> Option<PlannedActionKind> {
    if list_match(name, item_list, entries) {
        Some(PlannedActionKind::BuyItem)
    } else if slot == 6 {
        None
    } else if list_match(name, buy_only_operator_list, entries) {
        Some(PlannedActionKind::BuyOnlyOperator)
    } else if list_match(name, operator_list, entries) {
        Some(PlannedActionKind::BuySellOperator)
    } else if list_match(name, six_star_list, entries) {
        None
    } else if price == 0 || price == 1 {
        Some(PlannedActionKind::BuySellCheapOperator)
    } else {
        None
    }
}

/// Decides what to do with one recognised card.
pub fn classify_action(
    card: &RecognizedCard,
    item_list: &[String],
    operator_list: &[String],
    buy_only_operator_list: &[String],
    six_star_list: &[String],
    correction_map: &CorrectionMap,
) -> (r: Option<PlannedActionKind>)
    ensures
        r == classification(
            card.name@,
            card.slot,
            card.price,
            string_views(item_list@),
            string_views(operator_list@),
            string_views(buy_only_operator_list@),
            string_views(six_star_list@),
            correction_map.entries(),
        ),
{
    if is_list_match(card.name.as_str(), item_list, correction_map) {
        return Some(PlannedActionKind::BuyItem);
    }
    if card.slot == 6 {
        return None;
    }
    if is_list_match(card.name.as_str(), buy_only_operator_list, correction_map) {
        return Some(PlannedActionKind::BuyOnlyOperator);
    }
    if is_list_match(card.name.as_str(), operator_list, correction_map) {
        return Some(PlannedActionKind::BuySellOperator);
    }
    if is_list_match(card.name.as_str(), six_star_list, correction_map) {
        return None;
    }
    if card.price == 0 || card.price == 1 {
        return Some(PlannedActionKind::BuySellCheapOperator);
    }
    None
}

/// The position of an action kind in the purchase order: items first, then
/// buy-only operators, buy-and-sell operators, cheap operators.
pub open spec fn kind_rank(kind: PlannedActionKind) -> int {
    match kind {
        PlannedActionKind::BuyItem => 0,
        PlannedActionKind::BuyOnlyOperator => 1,
        PlannedActionKind::BuySellOperator => 2,
        PlannedActionKind::BuySellCheapOperator => 3,
    }
}

/// The sort key of an action: kind rank, then price, then slot.
pub open spec fn action_key(a: ActionView) -> (int, int, int) {
    (kind_rank(a.0), a.3 as int, a.1 as int)
}

/// Whether `a` may come before `b`: its key is lexicographically at most
/// the key of `b`.
pub open spec fn action_key_le(a: ActionView, b: ActionView) -> bool {
    let ka = action_key(a);
    let kb = action_key(b);
    ka.0 < kb.0 || (ka.0 == kb.0 && (ka.1 < kb.1 || (ka.1 == kb.1 && ka.2 <= kb.2)))
}

/// Actions in non-decreasing order of their keys.
pub open spec fn sorted_by_key(s: Seq<ActionView>) -> bool {
    forall|i: int, j: int| 0 <= i < j < s.len() ==> action_key_le(#[trigger] s[i], #[trigger] s[j])
}

/// The actions whose key is `k`, in their order.
pub open spec fn with_key(s: Seq<ActionView>, k: (int, int, int)) -> Seq<ActionView> {
    s.filter(|x: ActionView| action_key(x) == k)
}

/// The actions the cards call for, in card order, each named by the
/// normalised card name.
pub open spec fn planned_actions(
    cards: Seq<RecognizedCard>,
    item_list: Seq<Seq<char>>,
    operator_list: Seq<Seq<char>>,
    buy_only_operator_list: Seq<Seq<char>>,
    six_star_list: Seq<Seq<char>>,
    entries: Seq<(Seq<char>, Seq<char>)>,
) -> Seq<ActionView>
    decreases cards.len(),
{
    if cards.len() == 0 {
        Seq::empty()
    } else {
        let prev = planned_actions(
            cards.drop_last(),
            item_list,
            operator_list,
            buy_only_operator_list,
            six_star_list,
            entries,
        );
        let card = cards.last();
        match classification(
            card.name@,
            card.slot,
            card.price,
            item_list,
            operator_list,
            buy_only_operator_list,
            six_star_list,
            entries,
        ) {
            Some(kind) => prev.push((kind, card.slot, normalized(card.name@, entries), card.price)),
            None => prev,
        }
    }
}

proof fn lemma_with_key_push(s: Seq<ActionView>, x: ActionView, k: (int, int, int))
    ensures
        with_key(s.push(x), k) == if action_key(x) == k {
            with_key(s, k).push(x)
        } else {
            with_key(s, k)
        },
{
    reveal(Seq::filter);
    assert(s.push(x).drop_last() =~= s);
}

proof fn lemma_with_key_none(s: Seq<ActionView>, k: (int, int, int))
    requires
        forall|j: int| 0 <= j < s.len() ==> action_key(#[trigger] s[j]) != k,
    ensures
        with_key(s, k) == Seq::<ActionView>::empty(),
    decreases s.len(),
{
    reveal(Seq::filter);
    if s.len() > 0 {
        lemma_with_key_none(s.drop_last(), k);
    }
}

proof fn lemma_with_key_add(a: Seq<ActionView>, b: Seq<ActionView>, k: (int, int, int))
    ensures
        with_key(a + b, k) == with_key(a, k) + with_key(b, k),
{
    Seq::filter_distributes_over_add(a, b, |x: ActionView| action_key(x) == k);
}

proof fn lemma_with_key_insert(s: Seq<ActionView>, p: int, x: ActionView, k: (int, int, int))
    requires
        0 <= p <= s.len(),
        forall|j: int| p <= j < s.len() ==> !action_key_le(#[trigger] s[j], x),
    ensures
        with_key(s.insert(p, x), k) == with_key(s.push(x), k),
{
    let pre = s.subrange(0, p);
    let post = s.subrange(p, s.len() as int);
    let single = seq![x];
    assert(s.insert(p, x) =~= pre + single + post);
    assert(s.push(x) =~= pre + post + single);
    lemma_with_key_add(pre + single, post, k);
    lemma_with_key_add(pre, single, k);
    lemma_with_key_add(pre + post, single, k);
    lemma_with_key_add(pre, post, k);
    lemma_with_key_push(Seq::<ActionView>::empty(), x, k);
    assert(Seq::<ActionView>::empty().push(x) =~= single);
    lemma_with_key_none(Seq::<ActionView>::empty(), k);
    if action_key(x) == k {
        assert forall|j: int| 0 <= j < post.len() implies action_key(#[trigger] post[j]) != k by {
            assert(post[j] == s[p + j]);
        }
        lemma_with_key_none(post, k);
        assert(with_key(post, k) + with_key(single, k) =~= with_key(single, k));
        assert(with_key(single, k) + with_key(post, k) =~= with_key(single, k));
    } else {
        assert(with_key(single, k) =~= Seq::<ActionView>::empty());
        assert(with_key(pre, k) + with_key(single, k) =~= with_key(pre, k));
        assert(with_key(pre, k) + with_key(post, k) + with_key(single, k) =~= with_key(pre, k)
            + with_key(post, k));
    }
    assert(with_key(pre, k) + with_key(single, k) + with_key(post, k) =~= with_key(pre, k) + (
    with_key(single, k) + with_key(post, k)));
    assert(with_key(pre, k) + with_key(post, k) + with_key(single, k) =~= with_key(pre, k) + (
    with_key(post, k) + with_key(single, k)));
}

fn kind_rank_of(kind: PlannedActionKind) -> (r: u8)
    ensures
        r as int == kind_rank(kind),
{
    match kind {
        PlannedActionKind::BuyItem => 0,
        PlannedActionKind::BuyOnlyOperator => 1,
        PlannedActionKind::BuySellOperator => 2,
        PlannedActionKind::BuySellCheapOperator => 3,
    }
}

fn key_le(a: &PlannedAction, b: &PlannedAction) -> (r: bool)
    ensures
        r == action_key_le(action_view(*a), action_view(*b)),
{
    let ra = kind_rank_of(a.kind);
    let rb = kind_rank_of(b.kind);
    ra < rb || (ra == rb && (a.price < b.price || (a.price == b.price && a.slot <= b.slot)))
}

/// Inserts an action after every action whose key is at most its key.
fn insert_sorted(actions: &mut Vec<PlannedAction>, a: PlannedAction)
    requires
        sorted_by_key(action_views(old(actions)@)),
    ensures
        sorted_by_key(action_views(final(actions)@)),
        forall|k: (int, int, int)|
            #[trigger] with_key(action_views(final(actions)@), k) == with_key(
                action_views(old(actions)@).push(action_view(a)),
                k,
            ),
{
    let ghost before = action_views(actions@);
    let ghost x = action_view(a);
    let mut p = actions.len();
    loop
        invariant
            p <= actions@.len(),
            before == action_views(actions@),
            x == action_view(a),
            forall|j: int| p <= j < actions@.len() ==> !action_key_le(#[trigger] before[j], x),
        ensures
            p <= actions@.len(),
            forall|j: int| p <= j < actions@.len() ==> !action_key_le(#[trigger] before[j], x),
            p == 0 || action_key_le(before[p - 1], x),
        decreases p,
    {
        if p == 0 {
            break;
        }
        if key_le(&actions[p - 1], &a) {
            break;
        }
        p = p - 1;
    }
    actions.insert(p, a);
    let ghost after = action_views(actions@);
    assert(after =~= before.insert(p as int, x));
    assert(sorted_by_key(after)) by {
        assert forall|i: int, j: int| 0 <= i < j < after.len() implies action_key_le(
            #[trigger] after[i],
            #[trigger] after[j],
        ) by {
            if j < p {
                assert(after[i] == before[i] && after[j] == before[j]);
            } else if j == p {
                assert(after[i] == before[i]);
                if i < p - 1 {
                    assert(action_key_le(before[i], before[p - 1]));
                }
            } else if i == p {
                assert(after[j] == before[j - 1]);
            } else if i < p {
                assert(after[i] == before[i] && after[j] == before[j - 1]);
                if i < p - 1 {
                    assert(action_key_le(before[i], before[p - 1]));
                }
            } else {
                assert(after[i] == before[i - 1] && after[j] == before[j - 1]);
            }
        }
    }
    proof {
        assert forall|k: (int, int, int)|
            #[trigger] with_key(action_views(actions@), k) == with_key(before.push(x), k) by {
            lemma_with_key_insert(before, p as int, x, k);
        }
    }
}

/// The actions for the recognised cards, ordered by kind (items, buy-only
/// operators, buy-and-sell operators, cheap operators), then by price, then
/// by slot; actions with equal keys keep the order of their cards.
pub fn plan_actions(
    cards: &[RecognizedCard],
    item_list: &[String],
    operator_list: &[String],
    buy_only_operator_list: &[String],
    six_star_list: &[String],
    correction_map: &CorrectionMap,
) -> (actions: Vec<PlannedAction>)
    ensures
        sorted_by_key(action_views(actions@)),
        in_purchase_order(action_views(actions@)),
        forall|k: (int, int, int)|
            #[trigger] with_key(action_views(actions@), k) == with_key(
                planned_actions(
                    cards@,
                    string_views(item_list@),
                    string_views(operator_list@),
                    string_views(buy_only_operator_list@),
                    string_views(six_star_list@),
                    correction_map.entries(),
                ),
                k,
            ),
{
    let ghost items = string_views(item_list@);
    let ghost operators = string_views(operator_list@);
    let ghost buy_only = string_views(buy_only_operator_list@);
    let ghost six_star = string_views(six_star_list@);
    let ghost entries = correction_map.entries();
    let mut actions: Vec<PlannedAction> = Vec::new();
    let mut i: usize = 0;
    assert(cards@.subrange(0, 0) =~= Seq::<RecognizedCard>::empty());
    while i < cards.len()
        invariant
            i <= cards@.len(),
            items == string_views(item_list@),
            operators == string_views(operator_list@),
            buy_only == string_views(buy_only_operator_list@),
            six_star == string_views(six_star_list@),
            entries == correction_map.entries(),
            sorted_by_key(action_views(actions@)),
            forall|k: (int, int, int)|
                #[trigger] with_key(action_views(actions@), k) == with_key(
                    planned_actions(
                        cards@.subrange(0, i as int),
                        items,
                        operators,
                        buy_only,
                        six_star,
                        entries,
                    ),
                    k,
                ),
        decreases cards@.len() - i,
    {
        let card = &cards[i];
        let ghost prefix = cards@.subrange(0, i + 1);
        assert(prefix.drop_last() =~= cards@.subrange(0, i as int));
        assert(prefix.last() == cards@[i as int]);
        let ghost prev = planned_actions(
            cards@.subrange(0, i as int),
            items,
            operators,
            buy_only,
            six_star,
            entries,
        );
        let kind = classify_action(
            card,
            item_list,
            operator_list,
            buy_only_operator_list,
            six_star_list,
            correction_map,
        );
        match kind {
            Some(kind) => {
                let name = normalize_text(card.name.as_str(), correction_map);
                let action = PlannedAction { kind, slot: card.slot, name, price: card.price };
                let ghost x = action_view(action);
                let ghost old_views = action_views(actions@);
                insert_sorted(&mut actions, action);
                proof {
                    assert forall|k: (int, int, int)|
                        #[trigger] with_key(action_views(actions@), k) == with_key(
                            planned_actions(prefix, items, operators, buy_only, six_star, entries),
                            k,
                        ) by {
                        assert(with_key(action_views(actions@), k) == with_key(
                            old_views.push(x),
                            k,
                        ));
                        lemma_with_key_push(old_views, x, k);
                        lemma_with_key_push(prev, x, k);
                    }
                }
            },
            None => {},
        }
        i = i + 1;
    }
    assert(cards@.subrange(0, cards@.len() as int) =~= cards@);
    proof {
        lemma_purchase_order(action_views(actions@));
    }
    actions
}

/// A card whose name matches the item list is always bought as an item,
/// whatever its slot and price.
pub proof fn lemma_items_always_bought(
    name: Seq<char>,
    slot: usize,
    price: i32,
    item_list: Seq<Seq<char>>,
    operator_list: Seq<Seq<char>>,
    buy_only_operator_list: Seq<Seq<char>>,
    six_star_list: Seq<Seq<char>>,
    entries: Seq<(Seq<char>, Seq<char>)>,
)
    requires
        list_match(name, item_list, entries),
    ensures
        classification(
            name,
            slot,
            price,
            item_list,
            operator_list,
            buy_only_operator_list,
            six_star_list,
            entries,
        ) == Some(PlannedActionKind::BuyItem),
{
}

/// The last shop slot only ever yields items: no operator is bought there.
pub proof fn lemma_last_slot_only_items(
    name: Seq<char>,
    price: i32,
    item_list: Seq<Seq<char>>,
    operator_list: Seq<Seq<char>>,
    buy_only_operator_list: Seq<Seq<char>>,
    six_star_list: Seq<Seq<char>>,
    entries: Seq<(Seq<char>, Seq<char>)>,
)
    ensures
        ({
            let r = classification(
                name,
                6,
                price,
                item_list,
                operator_list,
                buy_only_operator_list,
                six_star_list,
                entries,
            );
            r is None || r == Some(PlannedActionKind::BuyItem)
        }),
{
}

/// An operator on no list, outside the last slot, is bought and sold when it
/// costs 0 or 1, and left alone otherwise; one on the do-not-touch list (and
/// on no buying list) is always left alone.
pub proof fn lemma_unlisted_operators(
    name: Seq<char>,
    slot: usize,
    price: i32,
    item_list: Seq<Seq<char>>,
    operator_list: Seq<Seq<char>>,
    buy_only_operator_list: Seq<Seq<char>>,
    six_star_list: Seq<Seq<char>>,
    entries: Seq<(Seq<char>, Seq<char>)>,
)
    requires
        !list_match(name, item_list, entries),
        !list_match(name, operator_list, entries),
        !list_match(name, buy_only_operator_list, entries),
        slot != 6,
    ensures
        ({
            let r = classification(
                name,
                slot,
                price,
                item_list,
                operator_list,
                buy_only_operator_list,
                six_star_list,
                entries,
            );
            &&& list_match(name, six_star_list, entries) ==> r is None
            &&& !list_match(name, six_star_list, entries) ==> (r == if price == 0 || price == 1 {
                Some(PlannedActionKind::BuySellCheapOperator)
            } else {
                None
            })
        }),
{
}

/// Actions in the order they are bought: all items first, then the buy-only
/// operators, then the buy-and-sell operators, the cheap operators last; and
/// within one kind the cheaper first, at equal price the lower slot first.
pub open spec fn in_purchase_order(s: Seq<ActionView>) -> bool {
    forall|i: int, j: int|
        0 <= i < j < s.len() ==> {
            let (a, b) = (#[trigger] s[i], #[trigger] s[j]);
            &&& b.0 == PlannedActionKind::BuyItem ==> a.0 == PlannedActionKind::BuyItem
            &&& b.0 == PlannedActionKind::BuyOnlyOperator ==> (a.0 == PlannedActionKind::BuyItem || a.0
                == PlannedActionKind::BuyOnlyOperator)
            &&& b.0 == PlannedActionKind::BuySellOperator ==> a.0 != PlannedActionKind::BuySellCheapOperator
            &&& a.0 == PlannedActionKind::BuySellCheapOperator ==> b.0
                == PlannedActionKind::BuySellCheapOperator
            &&& a.0 == b.0 ==> (a.3 < b.3 || (a.3 == b.3 && a.1 <= b.1))
        }
}

/// Actions ordered by their keys are in purchase order: every item is bought
/// before every buy-only operator, which comes before every buy-and-sell
/// operator, which comes before every cheap operator; within one kind the
/// cheaper comes first, and at equal price the lower slot.
pub proof fn lemma_purchase_order(s: Seq<ActionView>)
    requires
        sorted_by_key(s),
    ensures
        forall|i: int, j: int|
            0 <= i < j < s.len() ==> {
                let (a, b) = (#[trigger] s[i], #[trigger] s[j]);
                &&& b.0 == PlannedActionKind::BuyItem ==> a.0 == PlannedActionKind::BuyItem
                &&& b.0 == PlannedActionKind::BuyOnlyOperator ==> (a.0 == PlannedActionKind::BuyItem
                    || a.0 == PlannedActionKind::BuyOnlyOperator)
                &&& b.0 == PlannedActionKind::BuySellOperator ==> a.0 != PlannedActionKind::BuySellCheapOperator
                &&& a.0 == PlannedActionKind::BuySellCheapOperator ==> b.0
                    == PlannedActionKind::BuySellCheapOperator
                &&& a.0 == b.0 ==> (a.3 < b.3 || (a.3 == b.3 && a.1 <= b.1))
            },
        in_purchase_order(s),
{
    assert forall|i: int, j: int| 0 <= i < j < s.len() implies {
        let (a, b) = (#[trigger] s[i], #[trigger] s[j]);
        &&& b.0 == PlannedActionKind::BuyItem ==> a.0 == PlannedActionKind::BuyItem
        &&& b.0 == PlannedActionKind::BuyOnlyOperator ==> (a.0 == PlannedActionKind::BuyItem || a.0
            == PlannedActionKind::BuyOnlyOperator)
        &&& b.0 == PlannedActionKind::BuySellOperator ==> a.0 != PlannedActionKind::BuySellCheapOperator
        &&& a.0 == PlannedActionKind::BuySellCheapOperator ==> b.0 == PlannedActionKind::BuySellCheapOperator
        &&& a.0 == b.0 ==> (a.3 < b.3 || (a.3 == b.3 && a.1 <= b.1))
    } by {
        assert(action_key_le(s[i], s[j]));
    }
}

/// A recognised text whose normalised form is exactly an entry of the list
/// matches the list.
pub proof fn lemma_listed_name_matches(
    text: Seq<char>,
    list: Seq<Seq<char>>,
    entries: Seq<(Seq<char>, Seq<char>)>,
    i: int,
)
    requires
        0 <= i < list.len(),
        list[i] == normalized(text, entries),
        normalized(text, entries).len() > 0,
    ensures
        list_match(text, list, entries),
{
    assert(target_matches(normalized(text, entries), list[i]));
}

/// A blank recognised text matches no list.
pub proof fn lemma_blank_text_matches_nothing(
    text: Seq<char>,
    list: Seq<Seq<char>>,
    entries: Seq<(Seq<char>, Seq<char>)>,
)
    requires
        trim(text).len() == 0,
    ensures
        !list_match(text, list, entries),
        normalized(text, entries).len() == 0,
{
}

} // verus!
