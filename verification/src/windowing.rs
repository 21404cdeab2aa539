//! Choosing the game window among the windows of the desktop.
use vstd::prelude::*;

use crate::text::{
    chars_of, compare_text, contains_chars, contains_text, lemma_text_less_irreflexive,
    lemma_text_less_total, lemma_text_less_transitive, text_less, trim, trim_chars, TextOrder,
};

verus! {

/// A top-level window.
#[derive(Debug, Clone)]
pub struct WindowInfo {
    pub hwnd: isize,
    pub title: String,
    pub class_name: String,
    pub process_name: String,
    pub width: i32,
    pub height: i32,
}

/// A window as listed by the desktop, with whether it is visible and
/// whether it is minimised.
#[derive(Debug, Clone)]
pub struct WindowEntry {
    pub info: WindowInfo,
    pub visible: bool,
    pub minimized: bool,
}

/// A window as plain values: handle, title, class, process, width, height.
pub type WindowView = (isize, Seq<char>, Seq<char>, Seq<char>, i32, i32);

/// The plain values of a window.
pub open spec fn window_view(w: WindowInfo) -> WindowView {
    (w.hwnd, w.title@, w.class_name@, w.process_name@, w.width, w.height)
}

/// The plain values of a sequence of windows.
pub open spec fn window_views(s: Seq<WindowInfo>) -> Seq<WindowView> {
    s.map_values(|w: WindowInfo| window_view(w))
}

/// The label of a window in the window list: its title, followed by its
/// process name in brackets when that is known.
pub open spec fn window_label(title: Seq<char>, process: Seq<char>) -> Seq<char> {
    if process.len() == 0 {
        title
    } else {
        title + seq![' ', '('] + process + seq![')']
    }
}

impl WindowInfo {
    /// The label of the window in the window list.
    pub fn display_label(&self) -> (s: String)
        ensures
            s@ == window_label(self.title@, self.process_name@),
    {
        if self.process_name.as_str().unicode_len() == 0 {
            return self.title.clone();
        }
        let open = " (";
        let close = ")";
        proof {
            reveal_strlit(" (");
            reveal_strlit(")");
        }
        assert(open@ =~= seq![' ', '(']);
        assert(close@ =~= seq![')']);
        let mut s = self.title.clone();
        s.append(open);
        s.append(self.process_name.as_str());
        s.append(close);
        s
    }
}

/// Whether a window can be offered: visible, and either minimised or of a
/// positive size.
pub open spec fn window_candidate(width: i32, height: i32, visible: bool, minimized: bool) -> bool {
    visible && (minimized || (width > 0 && height > 0))
}

/// Whether a window can be offered.
pub fn is_window_candidate(width: i32, height: i32, visible: bool, minimized: bool) -> (b: bool)
    ensures
        b == window_candidate(width, height, visible, minimized),
{
    visible && (minimized || (width > 0 && height > 0))
}

/// The order group of a window title: the game first, then emulators, then
/// everything else.
pub open spec fn title_priority(title: Seq<char>) -> int {
    if contains_text(title, seq!['明', '日', '方', '舟']) {
        0
    } else if contains_text(title, seq!['模', '拟', '器']) {
        1
    } else {
        2
    }
}

fn priority_of(title: &Vec<char>) -> (p: u8)
    ensures
        p as int == title_priority(title@),
{
    let game = chars_of("明日方舟");
    let emulator = chars_of("模拟器");
    proof {
        reveal_strlit("明日方舟");
        reveal_strlit("模拟器");
    }
    assert(game@ =~= seq!['明', '日', '方', '舟']);
    assert(emulator@ =~= seq!['模', '拟', '器']);
    if contains_chars(title, &game) {
        0
    } else if contains_chars(title, &emulator) {
        1
    } else {
        2
    }
}

/// Whether window `a` is listed before window `b`: by order group, then by
/// title.
pub open spec fn window_less(a: WindowView, b: WindowView) -> bool {
    let (pa, pb) = (title_priority(a.1), title_priority(b.1));
    pa < pb || (pa == pb && text_less(a.1, b.1))
}

/// Windows in strictly increasing listing order.
pub open spec fn windows_sorted(s: Seq<WindowView>) -> bool {
    forall|i: int, j: int| 0 <= i < j < s.len() ==> window_less(#[trigger] s[i], #[trigger] s[j])
}

/// Whether some window of `s` has the trimmed title `t`.
pub open spec fn title_seen(s: Seq<WindowView>, t: Seq<char>) -> bool {
    exists|i: int| 0 <= i < s.len() && trim(#[trigger] s[i].1) == t
}

/// The windows that are offered, in desktop order: those with a title that
/// is not blank, that are candidates, and whose trimmed title has not been
/// offered before.
pub open spec fn offered_windows(entries: Seq<WindowEntry>) -> Seq<WindowView>
    decreases entries.len(),
{
    if entries.len() == 0 {
        Seq::empty()
    } else {
        let prev = offered_windows(entries.drop_last());
        let e = entries.last();
        if trim(e.info.title@).len() > 0 && window_candidate(
            e.info.width,
            e.info.height,
            e.visible,
            e.minimized,
        ) && !title_seen(prev, trim(e.info.title@)) {
            prev.push(window_view(e.info))
        } else {
            prev
        }
    }
}

fn window_less_exec(a: &WindowInfo, pa: u8, b: &WindowInfo, pb: u8, at: &Vec<char>, bt: &Vec<char>) -> (r:
    bool)
    requires
        at@ == a.title@,
        bt@ == b.title@,
        pa as int == title_priority(a.title@),
        pb as int == title_priority(b.title@),
    ensures
        r == window_less(window_view(*a), window_view(*b)),
{
    pa < pb || (pa == pb && matches!(compare_text(at, bt), TextOrder::Less))
}

/// The windows offered for selection, without repeated titles, the game
/// windows first, then emulators, then the rest, each group by title.
pub fn select_windows(entries: Vec<WindowEntry>) -> (r: Vec<WindowInfo>)
    ensures
        windows_sorted(window_views(r@)),
        r@.len() == offered_windows(entries@).len(),
        forall|i: int|
            0 <= i < r@.len() ==> offered_windows(entries@).contains(#[trigger] window_views(r@)[i]),
        forall|i: int|
            0 <= i < offered_windows(entries@).len() ==> window_views(r@).contains(
                #[trigger] offered_windows(entries@)[i],
            ),
{
    let ghost all = entries@;
    let mut rest = entries;
    let mut out: Vec<WindowInfo> = Vec::new();
    let mut seen: Vec<Vec<char>> = Vec::new();
    let ghost mut c: int = 0;
    assert(all.subrange(0, 0) =~= Seq::<WindowEntry>::empty());
    assert(rest@ =~= all.subrange(0, all.len() as int));
    while rest.len() > 0
        invariant
            0 <= c <= all.len(),
            rest@ == all.subrange(c, all.len() as int),
            seen@.len() == offered_windows(all.subrange(0, c)).len(),
            forall|j: int|
                0 <= j < seen@.len() ==> #[trigger] seen@[j]@ == trim(
                    offered_windows(all.subrange(0, c))[j].1,
                ),
            windows_sorted(window_views(out@)),
            out@.len() == offered_windows(all.subrange(0, c)).len(),
            forall|i: int|
                0 <= i < out@.len() ==> offered_windows(all.subrange(0, c)).contains(
                    #[trigger] window_views(out@)[i],
                ),
            forall|i: int|
                0 <= i < offered_windows(all.subrange(0, c)).len() ==> window_views(out@).contains(
                    #[trigger] offered_windows(all.subrange(0, c))[i],
                ),
            forall|i: int, j: int|
                0 <= i < j < offered_windows(all.subrange(0, c)).len() ==> trim(
                    #[trigger] offered_windows(all.subrange(0, c))[i].1,
                ) != trim(#[trigger] offered_windows(all.subrange(0, c))[j].1),
        decreases rest@.len(),
    {
        let ghost before_rest = rest@;
        let ghost prev = offered_windows(all.subrange(0, c));
        let ghost before_out = window_views(out@);
        let e = rest.remove(0);
        proof {
            assert(e == all[c]);
            assert(rest@ =~= all.subrange(c + 1, all.len() as int));
            assert(all.subrange(0, c + 1).drop_last() =~= all.subrange(0, c));
            assert(all.subrange(0, c + 1).last() == e);
        }
        let title = chars_of(e.info.title.as_str());
        let trimmed = trim_chars(&title);
        let mut take = trimmed.len() > 0 && is_window_candidate(
            e.info.width,
            e.info.height,
            e.visible,
            e.minimized,
        );
        if take {
            let mut k: usize = 0;
            let mut dup = false;
            loop
                invariant_except_break
                    !dup,
                invariant
                    k <= seen@.len(),
                    seen@.len() == prev.len(),
                    forall|j: int| 0 <= j < seen@.len() ==> #[trigger] seen@[j]@ == trim(prev[j].1),
                    forall|j: int| 0 <= j < k ==> trim(#[trigger] prev[j].1) != trimmed@,
                ensures
                    dup ==> title_seen(prev, trimmed@),
                    !dup ==> forall|j: int| 0 <= j < prev.len() ==> trim(#[trigger] prev[j].1) != trimmed@,
                decreases seen@.len() - k,
            {
                if k == seen.len() {
                    break;
                }
                if matches!(compare_text(&seen[k], &trimmed), TextOrder::Equal) {
                    assert(trim(prev[k as int].1) == trimmed@);
                    dup = true;
                    break;
                }
                k = k + 1;
            }
            if dup {
                take = false;
            }
        }
        let ghost now = offered_windows(all.subrange(0, c + 1));
        if take {
            let ghost x = window_view(e.info);
            assert(now == prev.push(x));
            let pe = priority_of(&title);
            let mut p: usize = 0;
            loop
                invariant
                    p <= out@.len(),
                    before_out == window_views(out@),
                    windows_sorted(before_out),
                    x == window_view(e.info),
                    title@ == e.info.title@,
                    pe as int == title_priority(title@),
                    forall|j: int| 0 <= j < p ==> window_less(#[trigger] before_out[j], x),
                ensures
                    p <= out@.len(),
                    forall|j: int| 0 <= j < p ==> window_less(#[trigger] before_out[j], x),
                    p == out@.len() || !window_less(before_out[p as int], x),
                decreases out@.len() - p,
            {
                if p == out.len() {
                    break;
                }
                let other = chars_of(out[p].title.as_str());
                let po = priority_of(&other);
                if !window_less_exec(&out[p], po, &e.info, pe, &other, &title) {
                    break;
                }
                p = p + 1;
            }
            proof {
                // `x` differs in title from every window offered so far.
                assert forall|j: int| 0 <= j < before_out.len() implies #[trigger] before_out[j].1
                    != x.1 by {
                    assert(prev.contains(before_out[j]));
                    let m = choose|m: int| 0 <= m < prev.len() && prev[m] == before_out[j];
                    assert(trim(prev[m].1) != trimmed@);
                }
                if p < before_out.len() {
                    lemma_text_less_total(before_out[p as int].1, x.1);
                }
                assert forall|j: int| p <= j < before_out.len() implies window_less(
                    x,
                    #[trigger] before_out[j],
                ) by {
                    if j > p {
                        assert(window_less(before_out[p as int], before_out[j]));
                        if title_priority(before_out[p as int].1) == title_priority(x.1)
                            && title_priority(before_out[j].1) == title_priority(x.1) {
                            lemma_text_less_transitive(x.1, before_out[p as int].1, before_out[j].1);
                        }
                    }
                }
            }
            out.insert(p, e.info);
            proof {
                let after = window_views(out@);
                assert(after =~= before_out.insert(p as int, x));
                assert forall|i: int, j: int| 0 <= i < j < after.len() implies window_less(
                    #[trigger] after[i],
                    #[trigger] after[j],
                ) by {
                    if j < p {
                        assert(after[i] == before_out[i] && after[j] == before_out[j]);
                    } else if j == p {
                        assert(after[i] == before_out[i]);
                    } else if i == p {
                        assert(after[j] == before_out[j - 1]);
                    } else if i < p {
                        assert(after[i] == before_out[i] && after[j] == before_out[j - 1]);
                        assert(window_less(before_out[i], x));
                        assert(window_less(x, before_out[j - 1]));
                        if title_priority(before_out[i].1) == title_priority(x.1)
                            && title_priority(x.1) == title_priority(before_out[j - 1].1) {
                            lemma_text_less_transitive(before_out[i].1, x.1, before_out[j - 1].1);
                        }
                    } else {
                        assert(after[i] == before_out[i - 1] && after[j] == before_out[j - 1]);
                    }
                }
                assert forall|i: int| 0 <= i < after.len() implies now.contains(#[trigger] after[i]) by {
                    if i == p {
                        assert(now[prev.len() as int] == x);
                    } else if i < p {
                        assert(after[i] == before_out[i]);
                        assert(prev.contains(before_out[i]));
                        let m = choose|m: int| 0 <= m < prev.len() && prev[m] == before_out[i];
                        assert(now[m] == prev[m]);
                    } else {
                        assert(after[i] == before_out[i - 1]);
                        assert(prev.contains(before_out[i - 1]));
                        let m = choose|m: int| 0 <= m < prev.len() && prev[m] == before_out[i - 1];
                        assert(now[m] == prev[m]);
                    }
                }
                assert forall|i: int| 0 <= i < now.len() implies after.contains(#[trigger] now[i]) by {
                    if i == prev.len() {
                        assert(after[p as int] == x);
                    } else {
                        assert(now[i] == prev[i]);
                        assert(before_out.contains(prev[i]));
                        let m = choose|m: int| 0 <= m < before_out.len() && before_out[m] == prev[i];
                        if m < p {
                            assert(after[m] == before_out[m]);
                        } else {
                            assert(after[m + 1] == before_out[m]);
                        }
                    }
                }
                assert forall|i: int, j: int| 0 <= i < j < now.len() implies trim(#[trigger] now[i].1)
                    != trim(#[trigger] now[j].1) by {
                    if j == prev.len() {
                        assert(now[i] == prev[i]);
                        assert(trim(x.1) == trimmed@);
                    } else {
                        assert(now[i] == prev[i] && now[j] == prev[j]);
                    }
                }
            }
            seen.push(trimmed);
            proof {
                assert forall|j: int| 0 <= j < seen@.len() implies #[trigger] seen@[j]@ == trim(
                    now[j].1,
                ) by {
                    if j < prev.len() {
                        assert(now[j] == prev[j]);
                    }
                }
            }
        } else {
            assert(now == prev);
        }
        proof {
            c = c + 1;
        }
    }
    assert(all.subrange(0, all.len() as int) =~= all);
    out
}

/// The index of the first window whose title contains `title`.
pub open spec fn first_title_match(windows: Seq<WindowView>, title: Seq<char>, i: int) -> bool {
    &&& 0 <= i < windows.len()
    &&& contains_text(windows[i].1, title)
    &&& forall|j: int| 0 <= j < i ==> !contains_text(#[trigger] windows[j].1, title)
}

/// The handle of the first listed window whose title contains `title`.
pub fn find_window_hwnd(windows: &[WindowInfo], title: &str) -> (r: Option<isize>)
    ensures
        r is None ==> forall|j: int|
            0 <= j < windows@.len() ==> !contains_text(#[trigger] windows@[j].title@, title@),
        r matches Some(h) ==> exists|i: int|
            first_title_match(window_views(windows@), title@, i) && h == windows@[i].hwnd,
{
    let wanted = chars_of(title);
    let mut i: usize = 0;
    while i < windows.len()
        invariant
            i <= windows@.len(),
            wanted@ == title@,
            forall|j: int| 0 <= j < i ==> !contains_text(#[trigger] windows@[j].title@, title@),
        decreases windows@.len() - i,
    {
        let t = chars_of(windows[i].title.as_str());
        if contains_chars(&t, &wanted) {
            proof {
                let views = window_views(windows@);
                assert(views[i as int].1 == windows@[i as int].title@);
                assert forall|j: int| 0 <= j < i implies !contains_text(#[trigger] views[j].1, title@) by {
                    assert(views[j].1 == windows@[j].title@);
                }
                assert(first_title_match(views, title@, i as int));
            }
            return Some(windows[i].hwnd);
        }
        i = i + 1;
    }
    None
}

} // verus!
