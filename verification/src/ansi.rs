//! The escape-sequence colorizer: text with embedded ANSI color sequences
//! becomes an ordered list of styled segments.
//!
//! A recognized sequence is `ESC [ d(d)? (; d(d)?)? m` with `d` a decimal
//! digit. Only the foreground codes 31, 32 and 33 select a color; every
//! other code (the reset 0 included) selects the default and still closes
//! the current run. A color takes effect for the text after its sequence.
//! Inside a segment the display substitution is applied per character:
//! spaces become non-breaking spaces, a tab becomes four of them, and
//! newlines stay as line breaks.

use vstd::prelude::*;
use crate::text::{chars_of, is_digit, is_digit_char};

verus! {

/// A foreground color tag.
#[derive(Clone, Copy, PartialEq, Eq, Debug)]
pub enum Color {
    Default,
    Red,
    Green,
    Yellow,
}

/// A contiguous run of display text under one color tag.
#[derive(Clone, Debug)]
pub struct StyledSegment {
    pub color: Color,
    pub text: String,
}

/// The mathematical value of a [`StyledSegment`].
pub struct SegmentView {
    pub color: Color,
    pub text: Seq<char>,
}

impl View for StyledSegment {
    type V = SegmentView;

    open spec fn view(&self) -> SegmentView {
        SegmentView { color: self.color, text: self.text@ }
    }
}

/// The segment views of a segment list.
pub open spec fn views_of_segments(v: Seq<StyledSegment>) -> Seq<SegmentView> {
    v.map_values(|s: StyledSegment| s@)
}

/// The color a foreground code selects; every code but 31, 32, 33 is default.
pub open spec fn color_of(fg: Seq<char>) -> Color {
    if fg.len() == 2 && fg[0] == '3' && fg[1] == '1' {
        Color::Red
    } else if fg.len() == 2 && fg[0] == '3' && fg[1] == '2' {
        Color::Green
    } else if fg.len() == 2 && fg[0] == '3' && fg[1] == '3' {
        Color::Yellow
    } else {
        Color::Default
    }
}

/// How many digits stand at `i`, counted up to two.
pub open spec fn digits_at(s: Seq<char>, i: int) -> int {
    if 0 <= i < s.len() && is_digit(s[i]) {
        if i + 1 < s.len() && is_digit(s[i + 1]) {
            2
        } else {
            1
        }
    } else {
        0
    }
}

/// The escape sequence starting exactly at `i`, if any: the position just
/// past its final `m`, and its foreground code. The code takes as many
/// digits as stand there, up to two; an optional `;`-separated second code
/// is skipped.
pub open spec fn esc_match_at(s: Seq<char>, i: int) -> Option<(int, Seq<char>)> {
    if !(0 <= i && i + 1 < s.len() && s[i] == '\u{1b}' && s[i + 1] == '[') {
        None
    } else {
        let k1 = digits_at(s, i + 2);
        if k1 == 0 {
            None
        } else {
            let j = i + 2 + k1;
            let fg = s.subrange(i + 2, j);
            if j < s.len() && s[j] == 'm' {
                Some((j + 1, fg))
            } else if j < s.len() && s[j] == ';' {
                let k2 = digits_at(s, j + 1);
                if k2 == 0 {
                    None
                } else if j + 1 + k2 < s.len() && s[j + 1 + k2] == 'm' {
                    Some((j + 1 + k2 + 1, fg))
                } else {
                    None
                }
            } else {
                None
            }
        }
    }
}

/// The text contains a recognized escape sequence somewhere.
pub open spec fn has_escape_spec(s: Seq<char>) -> bool {
    exists|i: int| 0 <= i < s.len() && esc_match_at(s, i) is Some
}

/// The display substitution for one character.
pub open spec fn subst_char(c: char) -> Seq<char> {
    if c == '\n' {
        seq!['\n']
    } else if c == '\t' {
        seq!['\u{a0}', '\u{a0}', '\u{a0}', '\u{a0}']
    } else if c == ' ' {
        seq!['\u{a0}']
    } else {
        seq![c]
    }
}

/// The display substitution applied to every character of `s`.
pub open spec fn subst_text(s: Seq<char>) -> Seq<char>
    decreases s.len(),
{
    if s.len() == 0 {
        Seq::empty()
    } else {
        subst_char(s[0]) + subst_text(s.drop_first())
    }
}

/// The segments of `s` from position `i` on, while the text since `start`
/// still waits under the color `color`. Empty chunks are omitted.
pub open spec fn segments_from(s: Seq<char>, i: int, start: int, color: Color) -> Seq<SegmentView>
    decreases s.len() - i,
{
    if !(0 <= start <= i) {
        Seq::empty()
    } else if i >= s.len() {
        if start < s.len() {
            seq![
                SegmentView { color, text: subst_text(s.subrange(start, s.len() as int)) },
            ]
        } else {
            Seq::empty()
        }
    } else {
        match esc_match_at(s, i) {
            Some(m) => {
                let pre = if start < i {
                    seq![SegmentView { color, text: subst_text(s.subrange(start, i)) }]
                } else {
                    Seq::empty()
                };
                pre + segments_from(s, m.0, m.0, color_of(m.1))
            },
            None => segments_from(s, i + 1, start, color),
        }
    }
}

/// What `colorize` returns on `s`.
pub open spec fn colorize_spec(s: Seq<char>) -> Seq<SegmentView> {
    segments_from(s, 0, 0, Color::Default)
}

/// `s` from position `i` on with every recognized escape sequence removed
/// and nothing else touched.
pub open spec fn strip_from(s: Seq<char>, i: int) -> Seq<char>
    decreases s.len() - i,
{
    if i < 0 || i >= s.len() {
        Seq::empty()
    } else {
        match esc_match_at(s, i) {
            Some(m) => strip_from(s, m.0),
            None => seq![s[i]] + strip_from(s, i + 1),
        }
    }
}

/// `s` with every recognized escape sequence removed.
pub open spec fn strip_escapes(s: Seq<char>) -> Seq<char> {
    strip_from(s, 0)
}

/// The texts of a segment list, concatenated in order.
pub open spec fn seg_texts(segs: Seq<SegmentView>) -> Seq<char>
    decreases segs.len(),
{
    if segs.len() == 0 {
        Seq::empty()
    } else {
        segs[0].text + seg_texts(segs.drop_first())
    }
}

proof fn lemma_subst_additive(a: Seq<char>, b: Seq<char>)
    ensures
        subst_text(a + b) == subst_text(a) + subst_text(b),
    decreases a.len(),
{
    if a.len() == 0 {
        assert(a + b =~= b);
        assert(subst_text(a) == Seq::<char>::empty());
        assert(subst_text(a) + subst_text(b) =~= subst_text(b));
    } else {
        assert((a + b).drop_first() =~= a.drop_first() + b);
        lemma_subst_additive(a.drop_first(), b);
        assert((a + b)[0] == a[0]);
        assert(subst_text(a + b) == subst_char(a[0]) + (subst_text(a.drop_first()) + subst_text(
            b,
        )));
        assert(subst_char(a[0]) + (subst_text(a.drop_first()) + subst_text(b)) =~= (subst_char(
            a[0],
        ) + subst_text(a.drop_first())) + subst_text(b));
    }
}

proof fn lemma_segments_texts(s: Seq<char>, i: int, start: int, color: Color)
    requires
        0 <= start <= i <= s.len(),
    ensures
        seg_texts(segments_from(s, i, start, color)) == subst_text(s.subrange(start, i))
            + subst_text(strip_from(s, i)),
    decreases s.len() - i,
{
    if i >= s.len() {
        assert(strip_from(s, i) == Seq::<char>::empty());
        if start < s.len() {
            let segs = segments_from(s, i, start, color);
            assert(segs.len() == 1);
            assert(segs[0] == SegmentView {
                color,
                text: subst_text(s.subrange(start, s.len() as int)),
            });
            assert(segs.drop_first() =~= Seq::<SegmentView>::empty());
            assert(seg_texts(segs.drop_first()) == Seq::<char>::empty());
            assert(subst_text(strip_from(s, i)) == Seq::<char>::empty());
            assert(s.subrange(start, s.len() as int) == s.subrange(start, i));
            assert(seg_texts(segs) =~= subst_text(s.subrange(start, i)) + subst_text(
                strip_from(s, i),
            ));
        } else {
            assert(s.subrange(start, i) =~= Seq::<char>::empty());
            assert(seg_texts(segments_from(s, i, start, color)) =~= subst_text(
                s.subrange(start, i),
            ) + subst_text(strip_from(s, i)));
        }
    } else {
        match esc_match_at(s, i) {
            Some(m) => {
                let end = m.0;
                assert(i < end <= s.len());
                lemma_segments_texts(s, end, end, color_of(m.1));
                assert(s.subrange(end, end) =~= Seq::<char>::empty());
                let rec = segments_from(s, end, end, color_of(m.1));
                assert(seg_texts(rec) =~= subst_text(strip_from(s, end)));
                if start < i {
                    let pre = SegmentView { color, text: subst_text(s.subrange(start, i)) };
                    let segs = segments_from(s, i, start, color);
                    assert(segs == seq![pre] + rec);
                    assert(segs.len() > 0);
                    assert(segs[0] == pre);
                    assert(segs.drop_first() =~= rec);
                    assert(seg_texts(segs) == pre.text + seg_texts(rec));
                } else {
                    assert(segments_from(s, i, start, color) =~= rec);
                    assert(s.subrange(start, i) =~= Seq::<char>::empty());
                    assert(seg_texts(rec) =~= subst_text(s.subrange(start, i)) + subst_text(
                        strip_from(s, i),
                    ));
                }
            },
            None => {
                lemma_segments_texts(s, i + 1, start, color);
                assert(s.subrange(start, i + 1) =~= s.subrange(start, i).push(s[i]));
                lemma_subst_snoc(s.subrange(start, i), s[i]);
                lemma_subst_additive(seq![s[i]], strip_from(s, i + 1));
                assert(seq![s[i]].drop_first() =~= Seq::<char>::empty());
                assert(seq![s[i]][0] == s[i]);
                assert(subst_text(Seq::<char>::empty()) == Seq::<char>::empty());
                assert(subst_text(seq![s[i]]) =~= subst_char(s[i]));
                assert((subst_text(s.subrange(start, i)) + subst_char(s[i])) + subst_text(
                    strip_from(s, i + 1),
                ) =~= subst_text(s.subrange(start, i)) + (subst_char(s[i]) + subst_text(
                    strip_from(s, i + 1),
                )));
            },
        }
    }
}

/// No character outside the escape sequences is lost or duplicated:
/// concatenating the texts of all returned segments gives the input with
/// the escape sequences removed and only the display substitution applied.
pub proof fn lemma_colorize_preserves_text(s: Seq<char>)
    ensures
        seg_texts(colorize_spec(s)) == subst_text(strip_escapes(s)),
{
    lemma_segments_texts(s, 0, 0, Color::Default);
    assert(s.subrange(0, 0) =~= Seq::<char>::empty());
    assert(subst_text(Seq::<char>::empty()) + subst_text(strip_from(s, 0)) =~= subst_text(
        strip_from(s, 0),
    ));
}

proof fn lemma_segments_no_escape(s: Seq<char>, i: int, start: int, color: Color)
    requires
        0 <= start <= i <= s.len(),
        forall|j: int| i <= j < s.len() ==> esc_match_at(s, j) is None,
    ensures
        segments_from(s, i, start, color) == if start < s.len() {
            seq![
                SegmentView {
                    color,
                    text: subst_text(s.subrange(start, s.len() as int)),
                },
            ]
        } else {
            Seq::<SegmentView>::empty()
        },
    decreases s.len() - i,
{
    if i < s.len() {
        lemma_segments_no_escape(s, i + 1, start, color);
    }
}

/// Colorizing text without any escape sequence returns the whole text as
/// one default-tagged segment with only the display substitution applied;
/// an empty text yields no segment at all.
pub proof fn lemma_no_escape_single_segment(s: Seq<char>)
    requires
        !has_escape_spec(s),
    ensures
        s.len() == 0 ==> colorize_spec(s) == Seq::<SegmentView>::empty(),
        s.len() > 0 ==> colorize_spec(s) == seq![
            SegmentView { color: Color::Default, text: subst_text(s) },
        ],
{
    lemma_segments_no_escape(s, 0, 0, Color::Default);
    if s.len() > 0 {
        assert(s.subrange(0, s.len() as int) =~= s);
    }
}

fn color_of_code(s: &Vec<char>, p: usize, k: usize) -> (c: Color)
    requires
        1 <= k <= 2,
        p + k <= s@.len(),
    ensures
        c == color_of(s@.subrange(p as int, p + k)),
{
    let n = s.len();
    proof {
        assert(p + k <= n);
    }
    if k == 2 && s[p] == '3' {
        let second = s[p + 1];
        if second == '1' {
            Color::Red
        } else if second == '2' {
            Color::Green
        } else if second == '3' {
            Color::Yellow
        } else {
            Color::Default
        }
    } else {
        Color::Default
    }
}

/// Looks for an escape sequence starting exactly at `i`; on a match,
/// returns the position just past it and the color its code selects.
fn try_match(s: &Vec<char>, i: usize) -> (r: Option<(usize, Color)>)
    ensures
        match esc_match_at(s@, i as int) {
            Some(m) => r is Some && (r->0).0 == m.0 && (r->0).1 == color_of(m.1),
            None => r is None,
        },
{
    let n = s.len();
    if !(i < n && s[i] == '\u{1b}') {
        return None;
    }
    if !(i + 1 < n && s[i + 1] == '[') {
        return None;
    }
    if !(i + 2 < n && is_digit_char(s[i + 2])) {
        return None;
    }
    let k1: usize = if i + 3 < n && is_digit_char(s[i + 3]) {
        2
    } else {
        1
    };
    let j = i + 2 + k1;
    if j < n && s[j] == 'm' {
        Some((j + 1, color_of_code(s, i + 2, k1)))
    } else if j < n && s[j] == ';' {
        if !(j + 1 < n && is_digit_char(s[j + 1])) {
            return None;
        }
        let k2: usize = if j + 2 < n && is_digit_char(s[j + 2]) {
            2
        } else {
            1
        };
        let e = j + 1 + k2;
        if e < n && s[e] == 'm' {
            Some((e + 1, color_of_code(s, i + 2, k1)))
        } else {
            None
        }
    } else {
        None
    }
}

proof fn lemma_subst_snoc(s: Seq<char>, c: char)
    ensures
        subst_text(s.push(c)) == subst_text(s) + subst_char(c),
    decreases s.len(),
{
    if s.len() == 0 {
        assert(s.push(c).len() == 1);
        assert(s.push(c)[0] == c);
        assert(s.push(c).drop_first() =~= Seq::<char>::empty());
        assert(subst_text(Seq::<char>::empty()) == Seq::<char>::empty());
        assert(subst_text(s.push(c)) == subst_char(c) + subst_text(Seq::<char>::empty()));
        assert(subst_text(s) == Seq::<char>::empty());
        assert(subst_text(s.push(c)) =~= subst_text(s) + subst_char(c));
    } else {
        assert(s.push(c).drop_first() =~= s.drop_first().push(c));
        lemma_subst_snoc(s.drop_first(), c);
        assert(s.push(c)[0] == s[0]);
        assert(subst_text(s.push(c)) == subst_char(s[0]) + subst_text(s.drop_first().push(c)));
        assert(subst_char(s[0]) + (subst_text(s.drop_first()) + subst_char(c)) =~= (subst_char(
            s[0],
        ) + subst_text(s.drop_first())) + subst_char(c));
        assert(subst_text(s.push(c)) =~= subst_text(s) + subst_char(c));
    }
}

fn push_subst_char(out: &mut String, c: char)
    ensures
        final(out)@ == old(out)@ + subst_char(c),
{
    if c == '\n' {
        out.push('\n');
    } else if c == '\t' {
        out.push('\u{a0}');
        out.push('\u{a0}');
        out.push('\u{a0}');
        out.push('\u{a0}');
    } else if c == ' ' {
        out.push('\u{a0}');
    } else {
        out.push(c);
    }
    proof {
        assert(final(out)@ =~= old(out)@ + subst_char(c));
    }
}

/// The display substitution applied to `s[from..to]`, as a string.
fn subst_range(s: &Vec<char>, from: usize, to: usize) -> (r: String)
    requires
        from <= to <= s@.len(),
    ensures
        r@ == subst_text(s@.subrange(from as int, to as int)),
{
    let mut r = String::new();
    let mut i = from;
    while i < to
        invariant
            from <= i <= to <= s@.len(),
            r@ == subst_text(s@.subrange(from as int, i as int)),
        decreases to - i,
    {
        push_subst_char(&mut r, s[i]);
        proof {
            lemma_subst_snoc(s@.subrange(from as int, i as int), s@[i as int]);
            assert(s@.subrange(from as int, i + 1) =~= s@.subrange(from as int, i as int).push(
                s@[i as int],
            ));
        }
        i = i + 1;
    }
    r
}

/// Splits the text into its styled segments.
pub fn colorize(text: &str) -> (r: Vec<StyledSegment>)
    ensures
        views_of_segments(r@) == colorize_spec(text@),
{
    let s = chars_of(text);
    let mut r: Vec<StyledSegment> = Vec::new();
    let mut i: usize = 0;
    let mut start: usize = 0;
    let mut color = Color::Default;
    while i < s.len()
        invariant
            start <= i <= s@.len(),
            s@ == text@,
            colorize_spec(text@) == views_of_segments(r@) + segments_from(
                s@,
                i as int,
                start as int,
                color,
            ),
        decreases s.len() - i,
    {
        match try_match(&s, i) {
            Some(ec) => {
                let (end, next_color) = ec;
                proof {
                    let m = esc_match_at(s@, i as int)->0;
                    assert(end == m.0 && next_color == color_of(m.1));
                    assert(i < end <= s@.len());
                }
                if start < i {
                    let seg = StyledSegment { color, text: subst_range(&s, start, i) };
                    proof {
                        assert(views_of_segments(r@.push(seg)) =~= views_of_segments(r@).push(
                            seg@,
                        ));
                        assert(views_of_segments(r@).push(seg@) + segments_from(
                            s@,
                            end as int,
                            end as int,
                            next_color,
                        ) =~= views_of_segments(r@) + segments_from(
                            s@,
                            i as int,
                            start as int,
                            color,
                        ));
                    }
                    r.push(seg);
                } else {
                    proof {
                        assert(views_of_segments(r@) + segments_from(
                            s@,
                            end as int,
                            end as int,
                            next_color,
                        ) =~= views_of_segments(r@) + segments_from(
                            s@,
                            i as int,
                            start as int,
                            color,
                        ));
                    }
                }
                i = end;
                start = end;
                color = next_color;
            },
            None => {
                i = i + 1;
            },
        }
    }
    if start < s.len() {
        let seg = StyledSegment { color, text: subst_range(&s, start, s.len()) };
        proof {
            assert(views_of_segments(r@.push(seg)) =~= views_of_segments(r@).push(seg@));
            assert(views_of_segments(r@).push(seg@) =~= views_of_segments(r@) + segments_from(
                s@,
                s@.len() as int,
                start as int,
                color,
            ));
        }
        r.push(seg);
    }
    proof {
        assert(colorize_spec(text@) =~= views_of_segments(r@));
    }
    r
}

/// Whether the text holds a recognized escape sequence at all.
pub fn has_escape(text: &str) -> (r: bool)
    ensures
        r == has_escape_spec(text@),
{
    let s = chars_of(text);
    let mut found = false;
    let mut i: usize = 0;
    while i < s.len()
        invariant
            i <= s@.len(),
            s@ == text@,
            found == exists|j: int| 0 <= j < i && esc_match_at(s@, j) is Some,
        decreases s.len() - i,
    {
        let m = try_match(&s, i);
        proof {
            if esc_match_at(s@, i as int) is Some {
                assert(0 <= i < s@.len() && esc_match_at(s@, i as int) is Some);
            }
        }
        if m.is_some() {
            found = true;
        }
        i = i + 1;
    }
    found
}

} // verus!
