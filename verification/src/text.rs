//! Character-level text operations used by the matching and list logic.
//!
//! Text is modelled by its sequence of Unicode scalar values (`Seq<char>`),
//! which is what `String` and `str` view to.
use vstd::prelude::*;

verus! {

/// The Unicode `White_Space` property (PropList.txt): the characters that
/// `char::is_whitespace` and `str::trim` treat as white space.
pub open spec fn is_white_space(c: char) -> bool {
    let u = c as u32;
    ||| 0x9 <= u && u <= 0xd
    ||| u == 0x20
    ||| u == 0x85
    ||| u == 0xa0
    ||| u == 0x1680
    ||| 0x2000 <= u && u <= 0x200a
    ||| u == 0x2028
    ||| u == 0x2029
    ||| u == 0x202f
    ||| u == 0x205f
    ||| u == 0x3000
}

/// `char::is_whitespace`: true exactly for the characters that have the
/// Unicode `White_Space` property.
#[verifier::external_body]
pub(crate) fn char_is_whitespace(c: char) -> (b: bool)
    ensures
        b == is_white_space(c),
{
    c.is_whitespace()
}

/// `String::push`: appends one character at the end of the string.
#[verifier::external_body]
pub(crate) fn push_char(s: &mut String, c: char)
    ensures
        final(s)@ == old(s)@.push(c),
{
    s.push(c);
}

/// The views of a sequence of strings.
pub open spec fn string_views(v: Seq<String>) -> Seq<Seq<char>> {
    v.map_values(|s: String| s@)
}

/// The views of a sequence of character vectors.
pub open spec fn char_vec_views(v: Seq<Vec<char>>) -> Seq<Seq<char>> {
    v.map_values(|p: Vec<char>| p@)
}

/// The characters of a string slice, in order.
pub fn chars_of(s: &str) -> (v: Vec<char>)
    ensures
        v@ == s@,
{
    let n = s.unicode_len();
    let mut v: Vec<char> = Vec::new();
    let mut i: usize = 0;
    while i < n
        invariant
            n == s@.len(),
            i <= n,
            v@ == s@.subrange(0, i as int),
        decreases n - i,
    {
        let c = s.get_char(i);
        v.push(c);
        i = i + 1;
    }
    assert(v@ =~= s@);
    v
}

/// The string made of the given characters.
pub fn string_of(v: &Vec<char>) -> (s: String)
    ensures
        s@ == v@,
{
    let mut s = String::new();
    let mut i: usize = 0;
    while i < v.len()
        invariant
            i <= v.len(),
            s@ == v@.subrange(0, i as int),
        decreases v.len() - i,
    {
        push_char(&mut s, v[i]);
        i = i + 1;
        assert(s@ =~= v@.subrange(0, i as int));
    }
    assert(v@.subrange(0, v@.len() as int) =~= v@);
    s
}

/// The characters `v[lo..hi]`.
pub fn copy_range(v: &Vec<char>, lo: usize, hi: usize) -> (r: Vec<char>)
    requires
        lo <= hi <= v.len(),
    ensures
        r@ == v@.subrange(lo as int, hi as int),
{
    let mut r: Vec<char> = Vec::new();
    let mut i = lo;
    while i < hi
        invariant
            lo <= i <= hi,
            hi <= v.len(),
            r@ == v@.subrange(lo as int, i as int),
        decreases hi - i,
    {
        r.push(v[i]);
        i = i + 1;
        assert(r@ =~= v@.subrange(lo as int, i as int));
    }
    r
}

/// `s` without its leading white space.
pub open spec fn trim_start(s: Seq<char>) -> Seq<char>
    decreases s.len(),
{
    if s.len() > 0 && is_white_space(s[0]) {
        trim_start(s.drop_first())
    } else {
        s
    }
}

/// `s` without its trailing white space.
pub open spec fn trim_end(s: Seq<char>) -> Seq<char>
    decreases s.len(),
{
    if s.len() > 0 && is_white_space(s.last()) {
        trim_end(s.drop_last())
    } else {
        s
    }
}

/// `str::trim`: `s` without leading and trailing white space.
pub open spec fn trim(s: Seq<char>) -> Seq<char> {
    trim_end(trim_start(s))
}

/// `v` without leading and trailing white space.
pub fn trim_chars(v: &Vec<char>) -> (r: Vec<char>)
    ensures
        r@ == trim(v@),
{
    let n = v.len();
    let mut lo: usize = 0;
    assert(v@.subrange(0, n as int) =~= v@);
    loop
        invariant
            n == v.len(),
            lo <= n,
            trim_start(v@) == trim_start(v@.subrange(lo as int, n as int)),
        ensures
            lo <= n,
            trim_start(v@) == trim_start(v@.subrange(lo as int, n as int)),
            lo == n || !is_white_space(v@[lo as int]),
        decreases n - lo,
    {
        if lo == n {
            break;
        }
        if !char_is_whitespace(v[lo]) {
            break;
        }
        let ghost rest = v@.subrange(lo as int, n as int);
        assert(rest.drop_first() =~= v@.subrange(lo + 1, n as int));
        lo = lo + 1;
    }
    assert(trim_start(v@) == v@.subrange(lo as int, n as int));
    let mut hi: usize = n;
    loop
        invariant
            n == v.len(),
            lo <= hi <= n,
            trim_start(v@) == v@.subrange(lo as int, n as int),
            trim_end(v@.subrange(lo as int, n as int)) == trim_end(
                v@.subrange(lo as int, hi as int),
            ),
        ensures
            lo <= hi <= n,
            trim_end(v@.subrange(lo as int, n as int)) == trim_end(
                v@.subrange(lo as int, hi as int),
            ),
            hi == lo || !is_white_space(v@[hi - 1]),
        decreases hi - lo,
    {
        if hi == lo {
            break;
        }
        if !char_is_whitespace(v[hi - 1]) {
            break;
        }
        let ghost part = v@.subrange(lo as int, hi as int);
        assert(part.drop_last() =~= v@.subrange(lo as int, hi - 1));
        hi = hi - 1;
    }
    assert(trim_end(v@.subrange(lo as int, hi as int)) == v@.subrange(lo as int, hi as int));
    copy_range(v, lo, hi)
}

/// `str::trim` on a string slice, giving its characters.
pub fn trim_str(s: &str) -> (r: Vec<char>)
    ensures
        r@ == trim(s@),
{
    let v = chars_of(s);
    trim_chars(&v)
}

/// `p` occurs in `s` starting at index `i`.
pub open spec fn occurs_at(s: Seq<char>, p: Seq<char>, i: int) -> bool {
    0 <= i && i + p.len() <= s.len() && s.subrange(i, i + p.len()) == p
}

/// `str::contains` with a string pattern: `p` occurs somewhere in `s`.
pub open spec fn contains_text(s: Seq<char>, p: Seq<char>) -> bool {
    exists|i: int| #[trigger] occurs_at(s, p, i)
}

/// Whether `p` occurs in `s` at index `i`.
pub fn occurs_at_index(s: &Vec<char>, p: &Vec<char>, i: usize) -> (b: bool)
    requires
        i + p.len() <= s.len(),
    ensures
        b == occurs_at(s@, p@, i as int),
{
    let mut j: usize = 0;
    while j < p.len()
        invariant
            i + p.len() <= s.len(),
            j <= p.len(),
            forall|k: int| 0 <= k < j ==> s@[i + k] == p@[k],
        decreases p.len() - j,
    {
        if s[i + j] != p[j] {
            assert(s@.subrange(i as int, i + p.len())[j as int] != p@[j as int]);
            return false;
        }
        j = j + 1;
    }
    assert(s@.subrange(i as int, i + p.len()) =~= p@);
    true
}

/// Whether `p` occurs somewhere in `s`.
pub fn contains_chars(s: &Vec<char>, p: &Vec<char>) -> (b: bool)
    ensures
        b == contains_text(s@, p@),
{
    if p.len() > s.len() {
        assert(forall|i: int| !#[trigger] occurs_at(s@, p@, i));
        return false;
    }
    let last = s.len() - p.len();
    let mut i: usize = 0;
    loop
        invariant
            last == s.len() - p.len(),
            p.len() <= s.len(),
            i <= last,
            forall|k: int| 0 <= k < i ==> !#[trigger] occurs_at(s@, p@, k),
        decreases last - i,
    {
        if occurs_at_index(s, p, i) {
            return true;
        }
        if i == last {
            assert(forall|k: int| !#[trigger] occurs_at(s@, p@, k));
            return false;
        }
        i = i + 1;
    }
}

/// `to` placed before every character of `s` and once more at the end: what
/// `str::replace` gives for an empty pattern, which matches at every
/// character boundary.
pub open spec fn interleave(s: Seq<char>, to: Seq<char>) -> Seq<char>
    decreases s.len(),
{
    if s.len() == 0 {
        to
    } else {
        to + seq![s[0]] + interleave(s.drop_first(), to)
    }
}

/// Every non-overlapping occurrence of the non-empty pattern `from`, found
/// from left to right, replaced by `to`.
pub open spec fn replace_nonempty(s: Seq<char>, from: Seq<char>, to: Seq<char>) -> Seq<char>
    decreases s.len(),
{
    if s.len() == 0 || from.len() == 0 {
        s
    } else if from.len() <= s.len() && s.subrange(0, from.len() as int) == from {
        to + replace_nonempty(s.subrange(from.len() as int, s.len() as int), from, to)
    } else {
        seq![s[0]] + replace_nonempty(s.drop_first(), from, to)
    }
}

/// `str::replace(from, to)`.
pub open spec fn replace_all(s: Seq<char>, from: Seq<char>, to: Seq<char>) -> Seq<char> {
    if from.len() == 0 {
        interleave(s, to)
    } else {
        replace_nonempty(s, from, to)
    }
}

fn append_chars(r: &mut Vec<char>, t: &Vec<char>)
    ensures
        final(r)@ == old(r)@ + t@,
{
    let mut i: usize = 0;
    while i < t.len()
        invariant
            i <= t.len(),
            r@ == old(r)@ + t@.subrange(0, i as int),
        decreases t.len() - i,
    {
        r.push(t[i]);
        i = i + 1;
        assert(r@ =~= old(r)@ + t@.subrange(0, i as int));
    }
    assert(t@.subrange(0, t@.len() as int) =~= t@);
}

/// `s.replace(from, to)` on character vectors.
pub fn replace_chars(s: &Vec<char>, from: &Vec<char>, to: &Vec<char>) -> (r: Vec<char>)
    ensures
        r@ == replace_all(s@, from@, to@),
{
    let n = s.len();
    let mut r: Vec<char> = Vec::new();
    let mut i: usize = 0;
    assert(s@.subrange(0, n as int) =~= s@);
    assert(r@ + interleave(s@, to@) =~= interleave(s@, to@));
    assert(r@ + replace_nonempty(s@, from@, to@) =~= replace_nonempty(s@, from@, to@));
    if from.len() == 0 {
        while i < n
            invariant
                n == s.len(),
                i <= n,
                interleave(s@, to@) == r@ + interleave(s@.subrange(i as int, n as int), to@),
            decreases n - i,
        {
            let ghost rest = s@.subrange(i as int, n as int);
            let ghost r0 = r@;
            assert(rest.drop_first() =~= s@.subrange(i + 1, n as int));
            append_chars(&mut r, to);
            r.push(s[i]);
            assert(r0 + interleave(rest, to@) =~= r@ + interleave(
                s@.subrange(i + 1, n as int),
                to@,
            ));
            i = i + 1;
        }
        append_chars(&mut r, to);
        assert(s@.subrange(n as int, n as int) =~= Seq::<char>::empty());
        assert(r@ =~= interleave(s@, to@));
        return r;
    }
    let m = from.len();
    while i < n
        invariant
            n == s.len(),
            m == from.len(),
            m > 0,
            i <= n,
            replace_nonempty(s@, from@, to@) == r@ + replace_nonempty(
                s@.subrange(i as int, n as int),
                from@,
                to@,
            ),
        decreases n - i,
    {
        let ghost rest = s@.subrange(i as int, n as int);
        if m <= n - i && occurs_at_index(s, from, i) {
            assert(rest.subrange(0, m as int) =~= s@.subrange(i as int, i + m));
            assert(rest.subrange(m as int, rest.len() as int) =~= s@.subrange(i + m, n as int));
            let ghost r0 = r@;
            append_chars(&mut r, to);
            assert(r0 + replace_nonempty(rest, from@, to@) =~= r@ + replace_nonempty(
                s@.subrange(i + m, n as int),
                from@,
                to@,
            ));
            i = i + m;
        } else {
            if m <= n - i {
                assert(rest.subrange(0, m as int) =~= s@.subrange(i as int, i + m));
            }
            assert(rest.drop_first() =~= s@.subrange(i + 1, n as int));
            let ghost r0 = r@;
            r.push(s[i]);
            assert(r0 + replace_nonempty(rest, from@, to@) =~= r@ + replace_nonempty(
                s@.subrange(i + 1, n as int),
                from@,
                to@,
            ));
            i = i + 1;
        }
    }
    assert(r@ =~= replace_nonempty(s@, from@, to@));
    r
}

/// `s` without any occurrence of the character `c` (`str::replace(c, "")`).
pub open spec fn without_char(s: Seq<char>, c: char) -> Seq<char> {
    s.filter(|x: char| x != c)
}

/// The characters of `v` other than `c`, in order.
pub fn remove_char(v: &Vec<char>, c: char) -> (r: Vec<char>)
    ensures
        r@ == without_char(v@, c),
{
    let mut r: Vec<char> = Vec::new();
    let mut i: usize = 0;
    while i < v.len()
        invariant
            i <= v.len(),
            r@ == without_char(v@.subrange(0, i as int), c),
        decreases v.len() - i,
    {
        proof {
            reveal(Seq::filter);
            assert(v@.subrange(0, i + 1).drop_last() =~= v@.subrange(0, i as int));
        }
        if v[i] != c {
            r.push(v[i]);
        }
        i = i + 1;
    }
    assert(v@.subrange(0, v@.len() as int) =~= v@);
    r
}

/// The parts joined with `sep` between consecutive parts (`[String]::join`).
pub open spec fn join_with(parts: Seq<Seq<char>>, sep: Seq<char>) -> Seq<char>
    decreases parts.len(),
{
    if parts.len() == 0 {
        Seq::empty()
    } else if parts.len() == 1 {
        parts[0]
    } else {
        join_with(parts.drop_last(), sep) + sep + parts.last()
    }
}

/// The strings joined with `sep` between consecutive strings.
pub fn join_strings(parts: &Vec<String>, sep: &str) -> (r: String)
    ensures
        r@ == join_with(string_views(parts@), sep@),
{
    let mut r = String::new();
    let mut i: usize = 0;
    while i < parts.len()
        invariant
            i <= parts.len(),
            r@ == join_with(string_views(parts@).subrange(0, i as int), sep@),
        decreases parts.len() - i,
    {
        let ghost prefix = string_views(parts@).subrange(0, i + 1);
        assert(prefix.drop_last() =~= string_views(parts@).subrange(0, i as int));
        if i > 0 {
            r.append(sep);
        }
        r.append(parts[i].as_str());
        i = i + 1;
        assert(r@ =~= join_with(prefix, sep@));
    }
    assert(string_views(parts@).subrange(0, parts@.len() as int) =~= string_views(parts@));
    r
}

/// Lexicographic order of texts by character code, the empty text first.
/// For UTF-8 strings this is the order of `str`'s `Ord`, which compares the
/// encoded bytes: UTF-8 preserves the order of code points.
pub open spec fn text_less(a: Seq<char>, b: Seq<char>) -> bool
    decreases a.len(),
{
    if a.len() == 0 {
        b.len() > 0
    } else if b.len() == 0 {
        false
    } else if a[0] != b[0] {
        a[0] < b[0]
    } else {
        text_less(a.drop_first(), b.drop_first())
    }
}

/// No text is less than itself.
pub proof fn lemma_text_less_irreflexive(a: Seq<char>)
    ensures
        !text_less(a, a),
    decreases a.len(),
{
    if a.len() > 0 {
        lemma_text_less_irreflexive(a.drop_first());
    }
}

/// The order of texts is transitive.
pub proof fn lemma_text_less_transitive(a: Seq<char>, b: Seq<char>, c: Seq<char>)
    requires
        text_less(a, b),
        text_less(b, c),
    ensures
        text_less(a, c),
    decreases a.len(),
{
    if a.len() > 0 && b.len() > 0 && c.len() > 0 {
        if a[0] == b[0] && b[0] == c[0] {
            lemma_text_less_transitive(a.drop_first(), b.drop_first(), c.drop_first());
        }
    }
}

/// Two different texts are ordered one way or the other.
pub proof fn lemma_text_less_total(a: Seq<char>, b: Seq<char>)
    requires
        a != b,
    ensures
        text_less(a, b) || text_less(b, a),
    decreases a.len(),
{
    if a.len() > 0 && b.len() > 0 && a[0] == b[0] {
        if a.drop_first() == b.drop_first() {
            assert(a =~= seq![a[0]] + a.drop_first());
            assert(b =~= seq![b[0]] + b.drop_first());
        } else {
            lemma_text_less_total(a.drop_first(), b.drop_first());
        }
    } else if a.len() == 0 && b.len() == 0 {
        assert(a =~= b);
    }
}

/// The outcome of comparing two texts.
#[derive(Clone, Copy, Debug)]
pub enum TextOrder {
    Less,
    Equal,
    Greater,
}

/// Compares two texts in the order of [`text_less`].
pub fn compare_text(a: &Vec<char>, b: &Vec<char>) -> (r: TextOrder)
    ensures
        r is Less <==> text_less(a@, b@),
        r is Equal <==> a@ == b@,
        r is Greater <==> text_less(b@, a@),
{
    let mut i: usize = 0;
    assert(a@.subrange(0, a@.len() as int) =~= a@);
    assert(b@.subrange(0, b@.len() as int) =~= b@);
    assert(a@.subrange(0, 0) =~= b@.subrange(0, 0));
    loop
        invariant
            i <= a.len(),
            i <= b.len(),
            a@.subrange(0, i as int) == b@.subrange(0, i as int),
            text_less(a@, b@) == text_less(
                a@.subrange(i as int, a@.len() as int),
                b@.subrange(i as int, b@.len() as int),
            ),
            text_less(b@, a@) == text_less(
                b@.subrange(i as int, b@.len() as int),
                a@.subrange(i as int, a@.len() as int),
            ),
        decreases a.len() - i,
    {
        let ghost ra = a@.subrange(i as int, a@.len() as int);
        let ghost rb = b@.subrange(i as int, b@.len() as int);
        if i == a.len() || i == b.len() {
            proof {
                if i == a.len() && i == b.len() {
                    assert(a@ =~= a@.subrange(0, i as int));
                    assert(b@ =~= b@.subrange(0, i as int));
                } else if i == a.len() {
                    assert(a@ =~= a@.subrange(0, i as int));
                    assert(a@ != b@ ==> true);
                    assert(b@.len() != a@.len());
                } else {
                    assert(b@ =~= b@.subrange(0, i as int));
                    assert(b@.len() != a@.len());
                }
                lemma_text_less_irreflexive(a@);
            }
            if i == a.len() && i == b.len() {
                return TextOrder::Equal;
            } else if i == a.len() {
                return TextOrder::Less;
            } else {
                return TextOrder::Greater;
            }
        }
        if a[i] != b[i] {
            proof {
                assert(a@[i as int] != b@[i as int]);
                assert(a@ != b@);
                assert(ra[0] == a@[i as int]);
                assert(rb[0] == b@[i as int]);
            }
            if a[i] < b[i] {
                return TextOrder::Less;
            } else {
                return TextOrder::Greater;
            }
        }
        assert(ra.drop_first() =~= a@.subrange(i + 1, a@.len() as int));
        assert(rb.drop_first() =~= b@.subrange(i + 1, b@.len() as int));
        assert(a@.subrange(0, i + 1) =~= a@.subrange(0, i as int).push(a@[i as int]));
        assert(b@.subrange(0, i + 1) =~= b@.subrange(0, i as int).push(b@[i as int]));
        i = i + 1;
    }
}

/// Whether a character separates names in a list: the ASCII and full-width
/// comma and semicolon, the enumeration comma `、`, line feed and carriage return.
pub open spec fn is_list_separator(c: char) -> bool {
    let u = c as u32;
    u == 0x2c || u == 0xff0c || u == 0x3b || u == 0xff1b || u == 0x3001 || u == 0x0a || u == 0x0d
}

fn list_separator(c: char) -> (b: bool)
    ensures
        b == is_list_separator(c),
{
    let u = c as u32;
    u == 0x2c || u == 0xff0c || u == 0x3b || u == 0xff1b || u == 0x3001 || u == 0x0a || u == 0x0d
}

/// The pieces of `s` between separator characters: one more piece than there
/// are separators, empty pieces included.
pub open spec fn split_pieces(s: Seq<char>) -> Seq<Seq<char>>
    decreases s.len(),
{
    if s.len() == 0 {
        seq![Seq::<char>::empty()]
    } else {
        let prev = split_pieces(s.drop_last());
        if is_list_separator(s.last()) {
            prev.push(Seq::<char>::empty())
        } else {
            prev.update(prev.len() - 1, prev.last().push(s.last()))
        }
    }
}

/// Cutting a text at its separators always leaves at least one piece.
pub proof fn lemma_split_pieces_nonempty(s: Seq<char>)
    ensures
        split_pieces(s).len() >= 1,
    decreases s.len(),
{
    if s.len() > 0 {
        lemma_split_pieces_nonempty(s.drop_last());
    }
}

/// The names of a list text: the text is trimmed and cut at every separator,
/// each piece is trimmed, and the pieces left empty are dropped.
pub open spec fn name_tokens(text: Seq<char>) -> Seq<Seq<char>> {
    split_pieces(trim(text)).map_values(|p: Seq<char>| trim(p)).filter(|p: Seq<char>| p.len() > 0)
}

/// The names in a list text whose entries are separated by commas,
/// semicolons (ASCII or full width), `、` or line breaks.
pub fn parse_name_list(text: &str) -> (names: Vec<String>)
    ensures
        string_views(names@) == name_tokens(text@),
{
    let t = trim_str(text);
    let mut pieces: Vec<Vec<char>> = Vec::new();
    let mut cur: Vec<char> = Vec::new();
    let mut i: usize = 0;
    assert(t@.subrange(0, 0) =~= Seq::<char>::empty());
    assert(char_vec_views(pieces@).push(cur@) =~= seq![Seq::<char>::empty()]);
    while i < t.len()
        invariant
            i <= t.len(),
            split_pieces(t@.subrange(0, i as int)) == char_vec_views(pieces@).push(cur@),
        decreases t.len() - i,
    {
        let c = t[i];
        let ghost prefix = t@.subrange(0, i + 1);
        assert(prefix.drop_last() =~= t@.subrange(0, i as int));
        assert(prefix.last() == c);
        if list_separator(c) {
            let ghost old_views = char_vec_views(pieces@);
            let ghost old_cur = cur@;
            pieces.push(cur);
            cur = Vec::new();
            assert(char_vec_views(pieces@) =~= old_views.push(old_cur));
            assert(char_vec_views(pieces@).push(cur@) =~= old_views.push(old_cur).push(
                Seq::<char>::empty(),
            ));
        } else {
            let ghost old_views = char_vec_views(pieces@);
            let ghost old_cur = cur@;
            cur.push(c);
            assert(char_vec_views(pieces@).push(cur@) =~= old_views.push(old_cur).update(
                old_views.len() as int,
                old_cur.push(c),
            ));
        }
        i = i + 1;
    }
    assert(t@.subrange(0, t@.len() as int) =~= t@);
    let ghost before = char_vec_views(pieces@);
    pieces.push(cur);
    assert(char_vec_views(pieces@) =~= split_pieces(t@));
    let ghost all = char_vec_views(pieces@);
    let mut names: Vec<String> = Vec::new();
    let mut k: usize = 0;
    assert(all.subrange(0, 0).map_values(|p: Seq<char>| trim(p)) =~= Seq::<Seq<char>>::empty());
    proof {
        reveal(Seq::filter);
    }
    assert(string_views(names@) =~= all.subrange(0, 0).map_values(|p: Seq<char>| trim(p)).filter(
        |p: Seq<char>| p.len() > 0,
    ));
    while k < pieces.len()
        invariant
            k <= pieces.len(),
            all == char_vec_views(pieces@),
            string_views(names@) == all.subrange(0, k as int).map_values(|p: Seq<char>| trim(p)).filter(
                |p: Seq<char>| p.len() > 0,
            ),
        decreases pieces.len() - k,
    {
        let p = trim_chars(&pieces[k]);
        let ghost mapped = all.subrange(0, k + 1).map_values(|p: Seq<char>| trim(p));
        assert(mapped.drop_last() =~= all.subrange(0, k as int).map_values(|p: Seq<char>| trim(p)));
        assert(mapped.last() == trim(pieces@[k as int]@));
        proof {
            reveal(Seq::filter);
        }
        if p.len() > 0 {
            let ghost old_names = string_views(names@);
            let s = string_of(&p);
            names.push(s);
            assert(string_views(names@) =~= old_names.push(p@));
        }
        k = k + 1;
    }
    assert(all.subrange(0, all.len() as int) =~= all);
    names
}

} // verus!
