//! The texts reported about scans and about the pipeline override.
use vstd::prelude::*;

use crate::recognition::SlotDebugInfo;
use crate::strategy::RecognizedCard;
use crate::text::{chars_of, join_with, push_char, string_views, trim, trim_chars, join_strings};

verus! {

/// The decimal digit of a number below ten.
pub open spec fn digit_char(d: int) -> char {
    if d == 0 {
        '0'
    } else if d == 1 {
        '1'
    } else if d == 2 {
        '2'
    } else if d == 3 {
        '3'
    } else if d == 4 {
        '4'
    } else if d == 5 {
        '5'
    } else if d == 6 {
        '6'
    } else if d == 7 {
        '7'
    } else if d == 8 {
        '8'
    } else {
        '9'
    }
}

/// The decimal digits of a natural number, without leading zeros.
pub open spec fn decimal_digits(n: nat) -> Seq<char>
    decreases n,
{
    if n < 10 {
        seq![digit_char(n as int)]
    } else {
        decimal_digits(n / 10).push(digit_char((n % 10) as int))
    }
}

/// The decimal text of an integer, with `-` before negative numbers.
pub open spec fn decimal_text(n: int) -> Seq<char> {
    if n < 0 {
        seq!['-'] + decimal_digits((-n) as nat)
    } else {
        decimal_digits(n as nat)
    }
}

fn digit_of(d: u64) -> (c: char)
    requires
        d < 10,
    ensures
        c == digit_char(d as int),
{
    if d == 0 {
        '0'
    } else if d == 1 {
        '1'
    } else if d == 2 {
        '2'
    } else if d == 3 {
        '3'
    } else if d == 4 {
        '4'
    } else if d == 5 {
        '5'
    } else if d == 6 {
        '6'
    } else if d == 7 {
        '7'
    } else if d == 8 {
        '8'
    } else {
        '9'
    }
}

/// Appends the decimal digits of `n` to `s`.
fn push_digits(s: &mut String, n: u64)
    ensures
        final(s)@ == old(s)@ + decimal_digits(n as nat),
    decreases n,
{
    if n < 10 {
        push_char(s, digit_of(n));
        assert(decimal_digits(n as nat) =~= seq![digit_char(n as int)]);
    } else {
        push_digits(s, n / 10);
        push_char(s, digit_of(n % 10));
        assert(decimal_digits(n as nat) == decimal_digits((n / 10) as nat).push(
            digit_char((n % 10) as int),
        ));
        assert(final(s)@ =~= old(s)@ + decimal_digits(n as nat)) by {
            assert((n / 10) as nat == (n as nat) / 10);
        }
    }
}

/// Appends the decimal text of `n` to `s`.
pub fn push_decimal(s: &mut String, n: i64)
    ensures
        final(s)@ == old(s)@ + decimal_text(n as int),
{
    if n < 0 {
        push_char(s, '-');
        let m: u64 = (0 - (n as i128)) as u64;
        push_digits(s, m);
        assert(final(s)@ =~= old(s)@ + decimal_text(n as int));
    } else {
        push_digits(s, n as u64);
    }
}

/// Appends the decimal text of the count `n` to `s`.
pub fn push_count(s: &mut String, n: usize)
    ensures
        final(s)@ == old(s)@ + decimal_text(n as int),
{
    push_digits(s, n as u64);
}

/// The line that reports one recognised card.
pub open spec fn card_line(slot: int, price: int, name: Seq<char>) -> Seq<char> {
    "槽位"@ + decimal_text(slot) + " | 费用: "@ + decimal_text(price) + " | 名称: "@ + name
}

/// The line that reports one recognised card: slot, price and name.
pub fn scan_line(card: &RecognizedCard) -> (s: String)
    ensures
        s@ == card_line(card.slot as int, card.price as int, card.name@),
{
    let mut s = String::from_str("槽位");
    push_count(&mut s, card.slot);
    s.append(" | 费用: ");
    push_decimal(&mut s, card.price as i64);
    s.append(" | 名称: ");
    s.append(card.name.as_str());
    s
}

/// The report of a scan of a window: one line per card, or a note that no
/// card was recognised.
pub open spec fn scan_report_text(window: Seq<char>, cards: Seq<RecognizedCard>) -> Seq<char> {
    if cards.len() == 0 {
        "窗口 `"@ + window + "` 未识别到可用卡片"@
    } else {
        join_with(
            cards.map_values(|c: RecognizedCard| card_line(c.slot as int, c.price as int, c.name@)),
            seq!['\n'],
        )
    }
}

/// The report of a scan of a window.
pub fn scan_report(window: &str, cards: &[RecognizedCard]) -> (s: String)
    ensures
        s@ == scan_report_text(window@, cards@),
{
    if cards.len() == 0 {
        let mut s = String::from_str("窗口 `");
        s.append(window);
        s.append("` 未识别到可用卡片");
        return s;
    }
    let mut lines: Vec<String> = Vec::new();
    let mut i: usize = 0;
    while i < cards.len()
        invariant
            i <= cards@.len(),
            string_views(lines@) == cards@.subrange(0, i as int).map_values(
                |c: RecognizedCard| card_line(c.slot as int, c.price as int, c.name@),
            ),
        decreases cards@.len() - i,
    {
        let line = scan_line(&cards[i]);
        let ghost before = string_views(lines@);
        let ghost lv = line@;
        lines.push(line);
        assert(string_views(lines@) =~= before.push(lv));
        assert(cards@.subrange(0, i + 1).map_values(
            |c: RecognizedCard| card_line(c.slot as int, c.price as int, c.name@),
        ) =~= cards@.subrange(0, i as int).map_values(
            |c: RecognizedCard| card_line(c.slot as int, c.price as int, c.name@),
        ).push(card_line(cards@[i as int].slot as int, cards@[i as int].price as int, cards@[i as int].name@)));
        i = i + 1;
        assert(string_views(lines@) =~= cards@.subrange(0, i as int).map_values(
            |c: RecognizedCard| card_line(c.slot as int, c.price as int, c.name@),
        ));
    }
    assert(cards@.subrange(0, cards@.len() as int) =~= cards@);
    let nl = "\n";
    proof {
        reveal_strlit("\n");
    }
    assert(nl@ =~= seq!['\n']);
    join_strings(&lines, nl)
}

/// A recognised value as the summary shows it: `(空)` when empty.
pub open spec fn summary_value(v: Seq<char>) -> Seq<char> {
    if v.len() == 0 {
        "(空)"@
    } else {
        v
    }
}

/// The summary line of a slot that was recognised.
pub open spec fn summary_line(slot: int, price: Seq<char>, name: Seq<char>) -> Seq<char> {
    "槽位 "@ + decimal_text(slot) + " | 价格 "@ + summary_value(price) + " | 名称 "@ + summary_value(
        name,
    )
}

/// The summary lines of the recognised slots, in slot order.
pub open spec fn summary_lines(slots: Seq<SlotDebugInfo>) -> Seq<Seq<char>>
    decreases slots.len(),
{
    if slots.len() == 0 {
        Seq::empty()
    } else {
        let prev = summary_lines(slots.drop_last());
        let s = slots.last();
        if s.recognized {
            prev.push(summary_line(s.slot as int, s.price_ocr@, s.name_ocr@))
        } else {
            prev
        }
    }
}

fn append_summary_value(s: &mut String, v: &String)
    ensures
        final(s)@ == old(s)@ + summary_value(v@),
{
    if v.as_str().unicode_len() == 0 {
        s.append("(空)");
    } else {
        s.append(v.as_str());
    }
}

/// One summary line per recognised slot: slot, price and name read.
pub fn recognized_summary(slots: &[SlotDebugInfo]) -> (lines: Vec<String>)
    ensures
        string_views(lines@) == summary_lines(slots@),
{
    let mut lines: Vec<String> = Vec::new();
    let mut i: usize = 0;
    while i < slots.len()
        invariant
            i <= slots@.len(),
            string_views(lines@) == summary_lines(slots@.subrange(0, i as int)),
        decreases slots@.len() - i,
    {
        let ghost prefix = slots@.subrange(0, i + 1);
        assert(prefix.drop_last() =~= slots@.subrange(0, i as int));
        if slots[i].recognized {
            let mut s = String::from_str("槽位 ");
            push_count(&mut s, slots[i].slot);
            s.append(" | 价格 ");
            append_summary_value(&mut s, &slots[i].price_ocr);
            s.append(" | 名称 ");
            append_summary_value(&mut s, &slots[i].name_ocr);
            let ghost before = string_views(lines@);
            lines.push(s);
            assert(string_views(lines@) =~= before.push(s@));
        }
        i = i + 1;
    }
    assert(slots@.subrange(0, slots@.len() as int) =~= slots@);
    lines
}

/// The title of a slot's panel: its number and whether it was recognised.
pub open spec fn slot_title_text(slot: int, recognized: bool) -> Seq<char> {
    "槽位 "@ + decimal_text(slot) + if recognized {
        " · 命中"@
    } else {
        " · 未命中"@
    }
}

/// The title of a slot's panel.
pub fn slot_title(slot: usize, recognized: bool) -> (s: String)
    ensures
        s@ == slot_title_text(slot as int, recognized),
{
    let mut s = String::from_str("槽位 ");
    push_count(&mut s, slot);
    if recognized {
        s.append(" · 命中");
    } else {
        s.append(" · 未命中");
    }
    s
}

/// The note logged about a pipeline override file that exists: whether it
/// is an empty object or will be applied.
pub open spec fn override_note(override_json: Seq<char>, path: Seq<char>) -> Seq<char> {
    if trim(override_json) == "{}"@ {
        "[AutoReverse] 检测到 pipeline override 文件，但当前内容为空对象: "@ + path
    } else {
        "[AutoReverse] 检测到 pipeline override 文件，启动时将应用覆盖配置: "@ + path
    }
}

/// The note logged about an existing pipeline override file.
pub fn pipeline_override_note(override_json: &str, path: &str) -> (s: String)
    ensures
        s@ == override_note(override_json@, path@),
{
    let j = chars_of(override_json);
    let t = trim_chars(&j);
    let empty = chars_of("{}");
    let is_empty = matches!(crate::text::compare_text(&t, &empty), crate::text::TextOrder::Equal);
    let mut s = if is_empty {
        String::from_str("[AutoReverse] 检测到 pipeline override 文件，但当前内容为空对象: ")
    } else {
        String::from_str("[AutoReverse] 检测到 pipeline override 文件，启动时将应用覆盖配置: ")
    };
    s.append(path);
    s
}

/// The error reported when no window has the wanted title.
pub open spec fn missing_window_text(title: Seq<char>) -> Seq<char> {
    "未找到目标窗口: "@ + title
}

/// The error reported when no window has the wanted title.
pub fn missing_window_message(title: &str) -> (s: String)
    ensures
        s@ == missing_window_text(title@),
{
    let mut s = String::from_str("未找到目标窗口: ");
    s.append(title);
    s
}

} // verus!
