//! Post-processing of a model reply into short chat-bubble fragments.

use vstd::prelude::*;
use crate::text::{trim, views, string_views, lemma_views_push, lemma_views_add, trimmed, slice_to_vec, chars_eq, chars_of, string_of, strings_of, is_ws_char};

verus! {

/// The most fragments a reply is cut into.
pub const MAX_FRAGMENTS: usize = 5;

// ── character classes ───────────────────────────────────────────────────────

pub open spec fn is_period(c: char) -> bool {
    c == '。' || c == '.'
}

/// Punctuation that ends a piece and stays with it.
pub open spec fn is_hard_end(c: char) -> bool {
    c == '！' || c == '？' || c == '!' || c == '?'
}

/// Punctuation that ends a piece and is dropped.
pub open spec fn is_soft_break(c: char) -> bool {
    c == '，' || c == '、' || c == ','
}

/// Punctuation that a fragment made only of it is merged into the previous one.
pub open spec fn is_merge_punct(c: char) -> bool {
    is_hard_end(c) || is_soft_break(c)
}

pub open spec fn is_ascii_char(c: char) -> bool {
    (c as u32) < 128
}

pub open spec fn is_paren(c: char) -> bool {
    c == '（' || c == '(' || c == '）' || c == ')'
}

pub open spec fn is_filler(c: char) -> bool {
    c == '啊' || c == '阿'
}

/// Characters before which a filler character is dropped.
pub open spec fn is_filler_trigger(c: char) -> bool {
    is_hard_end(c) || is_soft_break(c) || c == '～' || c == '~' || c == ' '
}

/// The emoji blocks: miscellaneous symbols and dingbats, and U+1F000..=U+1FFFF.
pub open spec fn is_emoji_spec(c: char) -> bool {
    let u = c as u32;
    (0x2600 <= u <= 0x27BF) || (0x1F000 <= u <= 0x1FFFF)
}

/// Whether the character at `i` is a space that separates two pieces: a
/// full-width space always, a plain space only between two non-ASCII characters.
pub open spec fn is_split_space_spec(s: Seq<char>, i: int) -> bool {
    let c = s[i];
    if c == '\u{3000}' {
        true
    } else if c != ' ' {
        false
    } else if i == 0 || i + 1 >= s.len() {
        false
    } else {
        !is_ascii_char(s[i - 1]) && !is_ascii_char(s[i + 1])
    }
}

// ── stages ──────────────────────────────────────────────────────────────────

/// The text without full-width and half-width periods.
pub open spec fn drop_periods(s: Seq<char>) -> Seq<char>
    decreases s.len(),
{
    if s.len() == 0 {
        s
    } else if is_period(s.last()) {
        drop_periods(s.drop_last())
    } else {
        drop_periods(s.drop_last()).push(s.last())
    }
}

/// The pieces between separator characters, as `str::split` gives them.
pub open spec fn split_pieces(s: Seq<char>, seps: Seq<char>) -> Seq<Seq<char>>
    decreases s.len(),
{
    if s.len() == 0 {
        seq![Seq::empty()]
    } else {
        let p = split_pieces(s.drop_last(), seps);
        if seps.contains(s.last()) {
            p.push(Seq::empty())
        } else {
            p.update(p.len() - 1, p.last().push(s.last()))
        }
    }
}

/// The two pipe characters that separate the parts of a reply.
pub open spec fn pipe_chars() -> Seq<char> {
    seq!['|', '｜']
}

pub open spec fn push_nonempty(r: Seq<Seq<char>>, t: Seq<char>) -> Seq<Seq<char>> {
    if t.len() > 0 {
        r.push(t)
    } else {
        r
    }
}

/// Each piece trimmed, the empty ones left out.
pub open spec fn keep_trimmed(p: Seq<Seq<char>>) -> Seq<Seq<char>>
    decreases p.len(),
{
    if p.len() == 0 {
        p
    } else {
        push_nonempty(keep_trimmed(p.drop_last()), trim(p.last()))
    }
}

/// The pieces cut from `s[0..n]` at punctuation, and where the unfinished piece starts.
pub open spec fn punct_scan(s: Seq<char>, n: int) -> (Seq<Seq<char>>, int)
    decreases n,
{
    if n <= 0 {
        (Seq::empty(), 0)
    } else {
        let (r, st) = punct_scan(s, n - 1);
        let c = s[n - 1];
        if is_hard_end(c) {
            (push_nonempty(r, trim(s.subrange(st, n))), n)
        } else if is_soft_break(c) || is_split_space_spec(s, n - 1) {
            (push_nonempty(r, trim(s.subrange(st, n - 1))), n)
        } else {
            (r, st)
        }
    }
}

/// A segment cut at punctuation: `！？!?` end a piece and stay with it, `，、,`
/// and separating spaces end a piece and are dropped; pieces are trimmed and
/// empty ones left out; a segment that gives no piece stays whole, trimmed.
pub open spec fn punct_pieces(s: Seq<char>) -> Seq<Seq<char>> {
    let (r, st) = punct_scan(s, s.len() as int);
    let r2 = if st < s.len() {
        push_nonempty(r, trim(s.subrange(st, s.len() as int)))
    } else {
        r
    };
    if r2.len() == 0 {
        seq![trim(s)]
    } else {
        r2
    }
}

/// The punctuation pieces of every segment, in order.
pub open spec fn expand(segs: Seq<Seq<char>>) -> Seq<Seq<char>>
    decreases segs.len(),
{
    if segs.len() == 0 {
        Seq::empty()
    } else {
        expand(segs.drop_last()) + punct_pieces(segs.last())
    }
}

pub open spec fn starts_with_lone_punct(f: Seq<char>) -> bool {
    f.len() > 0 && is_hard_end(f[0])
}

pub open spec fn only_punct(f: Seq<char>) -> bool {
    f.len() > 0 && forall|k: int| 0 <= k < f.len() ==> is_merge_punct(#[trigger] f[k])
}

/// One step of merging: a fragment made only of punctuation joins the previous
/// one; a fragment that starts with `！？!?` gives that character to the
/// previous one and keeps the rest (trimmed, if anything is left).
pub open spec fn merge_step(m: Seq<Seq<char>>, f: Seq<char>) -> Seq<Seq<char>> {
    if (starts_with_lone_punct(f) || only_punct(f)) && m.len() > 0 {
        if only_punct(f) {
            m.update(m.len() - 1, m.last() + f)
        } else {
            push_nonempty(m.update(m.len() - 1, m.last().push(f[0])), trim(f.drop_first()))
        }
    } else {
        m.push(f)
    }
}

pub open spec fn merge_all(fs: Seq<Seq<char>>) -> Seq<Seq<char>>
    decreases fs.len(),
{
    if fs.len() == 0 {
        Seq::empty()
    } else {
        merge_step(merge_all(fs.drop_last()), fs.last())
    }
}

pub open spec fn starts_with_paren_spec(f: Seq<char>) -> bool {
    f.len() > 0 && is_paren(f[0])
}

/// Whether the filler at `i` is dropped: not the first character, and last or
/// followed by punctuation, a tilde or a space.
pub open spec fn filler_dropped(s: Seq<char>, i: int) -> bool {
    i > 0 && is_filler(s[i]) && (i + 1 == s.len() || is_filler_trigger(s[i + 1]))
}

pub open spec fn strip_upto(s: Seq<char>, n: int) -> Seq<char>
    decreases n,
{
    if n <= 0 {
        Seq::empty()
    } else if filler_dropped(s, n - 1) {
        strip_upto(s, n - 1)
    } else {
        strip_upto(s, n - 1).push(s[n - 1])
    }
}

/// The text without its dropped filler characters.
pub open spec fn strip_filler_spec(s: Seq<char>) -> Seq<char> {
    strip_upto(s, s.len() as int)
}

pub open spec fn emoji_count(s: Seq<char>) -> nat
    decreases s.len(),
{
    if s.len() == 0 {
        0
    } else {
        emoji_count(s.drop_last()) + if is_emoji_spec(s.last()) {
            1nat
        } else {
            0nat
        }
    }
}

/// The text keeping only its first `max` emoji.
pub open spec fn cap_emojis_spec(s: Seq<char>, max: nat) -> Seq<char>
    decreases s.len(),
{
    if s.len() == 0 {
        s
    } else if is_emoji_spec(s.last()) && emoji_count(s.drop_last()) >= max {
        cap_emojis_spec(s.drop_last(), max)
    } else {
        cap_emojis_spec(s.drop_last(), max).push(s.last())
    }
}

/// Stage directions (fragments opening with a parenthesis) left out, fillers
/// stripped, one emoji kept, empty results left out.
pub open spec fn polish(m: Seq<Seq<char>>) -> Seq<Seq<char>>
    decreases m.len(),
{
    if m.len() == 0 {
        m
    } else if starts_with_paren_spec(m.last()) {
        polish(m.drop_last())
    } else {
        push_nonempty(polish(m.drop_last()), cap_emojis_spec(strip_filler_spec(m.last()), 1))
    }
}

/// The conjunctions that cannot end a reply.
pub open spec fn conjunctions() -> Seq<Seq<char>> {
    seq![
        seq!['而', '且'],
        seq!['但', '是'],
        seq!['可', '是'],
        seq!['所', '以'],
        seq!['因', '為'],
        seq!['然', '後'],
        seq!['不', '過'],
        seq!['另', '外'],
        seq!['舉', '例', '來', '說'],
        seq!['比', '方', '說'],
        seq!['再', '者'],
        seq!['其', '次'],
        seq!['首', '先'],
        seq!['總', '之'],
        seq!['於', '是'],
        seq!['結', '果'],
        seq!['然', '而'],
        seq!['並', '且'],
        seq!['或', '是'],
        seq!['或', '者'],
    ]
}

pub open spec fn is_dangling_spec(f: Seq<char>) -> bool {
    conjunctions().contains(trim(f))
}

/// Trailing fragments that are a lone conjunction removed.
pub open spec fn drop_dangling(x: Seq<Seq<char>>) -> Seq<Seq<char>>
    decreases x.len(),
{
    if x.len() > 0 && is_dangling_spec(x.last()) {
        drop_dangling(x.drop_last())
    } else {
        x
    }
}

pub open spec fn take_max(x: Seq<Seq<char>>) -> Seq<Seq<char>> {
    if x.len() > MAX_FRAGMENTS {
        x.take(MAX_FRAGMENTS as int)
    } else {
        x
    }
}

/// The fragments of a reply: trimmed, periods removed, cut at pipes and then at
/// punctuation, stray punctuation merged back, stage directions dropped, fillers
/// stripped, one emoji per fragment, at most `MAX_FRAGMENTS`, and no lone
/// conjunction at the end.
pub open spec fn fragments(s: Seq<char>) -> Seq<Seq<char>> {
    let cleaned = drop_periods(trim(s));
    drop_dangling(
        take_max(polish(merge_all(expand(keep_trimmed(split_pieces(cleaned, pipe_chars()))))))
    )
}

// ── executable stages ───────────────────────────────────────────────────────

fn is_hard_end_char(c: char) -> (r: bool)
    ensures
        r == is_hard_end(c),
{
    c == '！' || c == '？' || c == '!' || c == '?'
}

fn is_soft_break_char(c: char) -> (r: bool)
    ensures
        r == is_soft_break(c),
{
    c == '，' || c == '、' || c == ','
}

fn is_filler_trigger_char(c: char) -> (r: bool)
    ensures
        r == is_filler_trigger(c),
{
    is_hard_end_char(c) || is_soft_break_char(c) || c == '～' || c == '~' || c == ' '
}

/// Whether a character lies in one of the emoji blocks.
pub fn is_emoji(c: char) -> (r: bool)
    ensures
        r == is_emoji_spec(c),
{
    let u = c as u32;
    (0x2600 <= u && u <= 0x27BF) || (0x1F000 <= u && u <= 0x1FFFF)
}

/// Whether `chars[i]` is a space that separates two pieces (see `is_split_space_spec`).
pub fn is_split_space(chars: &[char], i: usize) -> (r: bool)
    requires
        i < chars.len(),
    ensures
        r == is_split_space_spec(chars@, i as int),
{
    let c = chars[i];
    if c == '\u{3000}' {
        return true;
    }
    if c != ' ' {
        return false;
    }
    if i == 0 || i + 1 >= chars.len() {
        return false;
    }
    !((chars[i - 1] as u32) < 128) && !((chars[i + 1] as u32) < 128)
}

fn remove_periods(v: &Vec<char>) -> (r: Vec<char>)
    ensures
        r@ == drop_periods(v@),
{
    let mut r: Vec<char> = Vec::new();
    let mut i: usize = 0;
    while i < v.len()
        invariant
            i <= v.len(),
            r@ == drop_periods(v@.take(i as int)),
        decreases v.len() - i,
    {
        let c = v[i];
        proof {
            assert(v@.take(i + 1).drop_last() =~= v@.take(i as int));
        }
        if !(c == '。' || c == '.') {
            r.push(c);
        }
        i = i + 1;
    }
    assert(v@.take(v.len() as int) =~= v@);
    r
}

/// Whether a character is one of the given ones.
pub fn char_in(c: char, set: &[char]) -> (r: bool)
    ensures
        r == set@.contains(c),
{
    let mut i: usize = 0;
    while i < set.len()
        invariant
            i <= set@.len(),
            forall|j: int| 0 <= j < i ==> set@[j] != c,
        decreases set@.len() - i,
    {
        if set[i] == c {
            assert(set@[i as int] == c);
            return true;
        }
        i = i + 1;
    }
    false
}

/// The pieces of `v` between separators, trimmed, the empty ones left out.
pub fn split_trimmed(v: &Vec<char>, seps: &[char]) -> (r: Vec<Vec<char>>)
    ensures
        views(r@) == keep_trimmed(split_pieces(v@, seps@)),
{
    let mut r: Vec<Vec<char>> = Vec::new();
    let mut start: usize = 0;
    let mut i: usize = 0;
    assert(split_pieces(v@.take(0), seps@) == seq![Seq::<char>::empty()]);
    while i < v.len()
        invariant
            start <= i <= v.len(),
            split_pieces(v@.take(i as int), seps@).len() > 0,
            split_pieces(v@.take(i as int), seps@).last() == v@.subrange(start as int, i as int),
            views(r@) == keep_trimmed(split_pieces(v@.take(i as int), seps@).drop_last()),
        decreases v.len() - i,
    {
        let ghost p = split_pieces(v@.take(i as int), seps@);
        proof {
            assert(v@.take(i + 1).drop_last() =~= v@.take(i as int));
        }
        if char_in(v[i], seps) {
            let t = trimmed(v, start, i);
            proof {
                assert(split_pieces(v@.take(i + 1), seps@) == p.push(Seq::empty()));
                assert(p.push(Seq::<char>::empty()).drop_last() =~= p);
            }
            if t.len() > 0 {
                proof {
                    lemma_views_push(r@, t);
                }
                r.push(t);
            }
            start = i + 1;
            proof {
                assert(v@.subrange(start as int, i + 1) =~= Seq::<char>::empty());
            }
        } else {
            proof {
                let p2 = p.update(p.len() - 1, p.last().push(v@[i as int]));
                assert(split_pieces(v@.take(i + 1), seps@) == p2);
                assert(p2.drop_last() =~= p.drop_last());
                assert(p2.last() =~= v@.subrange(start as int, i + 1));
            }
        }
        i = i + 1;
    }
    let t = trimmed(v, start, v.len());
    proof {
        assert(v@.take(v.len() as int) =~= v@);
        let p = split_pieces(v@, seps@);
        assert(p =~= p.drop_last().push(p.last()));
        assert(p.drop_last().push(p.last()).drop_last() =~= p.drop_last());
    }
    if t.len() > 0 {
        proof {
            lemma_views_push(r@, t);
        }
        r.push(t);
    }
    r
}

fn punct_pieces_of(s: &Vec<char>) -> (r: Vec<Vec<char>>)
    ensures
        views(r@) == punct_pieces(s@),
{
    let mut r: Vec<Vec<char>> = Vec::new();
    let mut start: usize = 0;
    let mut i: usize = 0;
    while i < s.len()
        invariant
            start <= i <= s.len(),
            punct_scan(s@, i as int).0 == views(r@),
            punct_scan(s@, i as int).1 == start as int,
        decreases s.len() - i,
    {
        let c = s[i];
        if is_hard_end_char(c) {
            let t = trimmed(s, start, i + 1);
            if t.len() > 0 {
                proof {
                    lemma_views_push(r@, t);
                }
                r.push(t);
            }
            start = i + 1;
        } else if is_soft_break_char(c) || is_split_space(s.as_slice(), i) {
            let t = trimmed(s, start, i);
            if t.len() > 0 {
                proof {
                    lemma_views_push(r@, t);
                }
                r.push(t);
            }
            start = i + 1;
        }
        i = i + 1;
    }
    if start < s.len() {
        let t = trimmed(s, start, s.len());
        if t.len() > 0 {
            proof {
                lemma_views_push(r@, t);
            }
            r.push(t);
        }
    }
    if r.len() == 0 {
        let t = trimmed(s, 0, s.len());
        proof {
            assert(s@.subrange(0, s@.len() as int) =~= s@);
            lemma_views_push(r@, t);
            assert(views(r@.push(t)) =~= seq![trim(s@)]);
        }
        r.push(t);
    }
    r
}

fn expand_all(segs: &Vec<Vec<char>>) -> (r: Vec<Vec<char>>)
    ensures
        views(r@) == expand(views(segs@)),
{
    let mut r: Vec<Vec<char>> = Vec::new();
    let mut i: usize = 0;
    while i < segs.len()
        invariant
            i <= segs.len(),
            views(r@) == expand(views(segs@).take(i as int)),
        decreases segs.len() - i,
    {
        let mut pieces = punct_pieces_of(&segs[i]);
        proof {
            assert(views(segs@).take(i + 1).drop_last() =~= views(segs@).take(i as int));
            lemma_views_add(r@, pieces@);
        }
        r.append(&mut pieces);
        i = i + 1;
    }
    assert(views(segs@).take(segs.len() as int) =~= views(segs@));
    r
}

fn only_punct_chars(f: &Vec<char>) -> (r: bool)
    ensures
        r == only_punct(f@),
{
    if f.len() == 0 {
        return false;
    }
    let mut i: usize = 0;
    while i < f.len()
        invariant
            i <= f.len(),
            forall|k: int| 0 <= k < i ==> is_merge_punct(#[trigger] f@[k]),
        decreases f.len() - i,
    {
        if !(is_hard_end_char(f[i]) || is_soft_break_char(f[i])) {
            return false;
        }
        i = i + 1;
    }
    true
}

fn merge_fragments(fs: &Vec<Vec<char>>) -> (r: Vec<Vec<char>>)
    ensures
        views(r@) == merge_all(views(fs@)),
{
    let mut m: Vec<Vec<char>> = Vec::new();
    let mut i: usize = 0;
    while i < fs.len()
        invariant
            i <= fs.len(),
            views(m@) == merge_all(views(fs@).take(i as int)),
        decreases fs.len() - i,
    {
        let f = &fs[i];
        let ghost mv = views(m@);
        proof {
            assert(views(fs@).take(i + 1).drop_last() =~= views(fs@).take(i as int));
            assert(views(fs@).take(i + 1).last() == f@);
        }
        let starts = f.len() > 0 && is_hard_end_char(f[0]);
        let only = only_punct_chars(f);
        if (starts || only) && m.len() > 0 {
            let mut last = m.pop().unwrap();
            proof {
                assert(views(m@).push(last@) =~= mv);
            }
            if only {
                let mut tail = slice_to_vec(f, 0, f.len());
                let ghost before = last@;
                last.append(&mut tail);
                proof {
                    assert(f@.subrange(0, f@.len() as int) =~= f@);
                    lemma_views_push(m@, last);
                    assert(views(m@.push(last)) =~= mv.update(mv.len() - 1, mv.last() + f@));
                }
                m.push(last);
            } else {
                last.push(f[0]);
                proof {
                    lemma_views_push(m@, last);
                    assert(views(m@.push(last)) =~= mv.update(mv.len() - 1, mv.last().push(f@[0])));
                }
                m.push(last);
                let rest = trimmed(f, 1, f.len());
                proof {
                    assert(f@.subrange(1, f@.len() as int) =~= f@.drop_first());
                }
                if rest.len() > 0 {
                    proof {
                        lemma_views_push(m@, rest);
                    }
                    m.push(rest);
                }
            }
        } else {
            let copy = slice_to_vec(f, 0, f.len());
            proof {
                assert(f@.subrange(0, f@.len() as int) =~= f@);
                lemma_views_push(m@, copy);
            }
            m.push(copy);
        }
        i = i + 1;
    }
    assert(views(fs@).take(fs.len() as int) =~= views(fs@));
    m
}

fn strip_filler_chars(s: &Vec<char>) -> (r: Vec<char>)
    ensures
        r@ == strip_filler_spec(s@),
{
    let mut r: Vec<char> = Vec::new();
    let mut i: usize = 0;
    while i < s.len()
        invariant
            i <= s.len(),
            r@ == strip_upto(s@, i as int),
        decreases s.len() - i,
    {
        let c = s[i];
        let drop = i > 0 && (c == '啊' || c == '阿') && (i + 1 == s.len()
            || is_filler_trigger_char(s[i + 1]));
        if !drop {
            r.push(c);
        }
        i = i + 1;
    }
    r
}

fn cap_emojis_chars(s: &Vec<char>, max: usize) -> (r: Vec<char>)
    ensures
        r@ == cap_emojis_spec(s@, max as nat),
{
    let mut r: Vec<char> = Vec::new();
    let mut count: usize = 0;
    let mut i: usize = 0;
    while i < s.len()
        invariant
            i <= s.len(),
            r@ == cap_emojis_spec(s@.take(i as int), max as nat),
            count as nat == if emoji_count(s@.take(i as int)) < max {
                emoji_count(s@.take(i as int))
            } else {
                max as nat
            },
        decreases s.len() - i,
    {
        let c = s[i];
        proof {
            assert(s@.take(i + 1).drop_last() =~= s@.take(i as int));
        }
        if is_emoji(c) {
            if count < max {
                count = count + 1;
                r.push(c);
            }
        } else {
            r.push(c);
        }
        i = i + 1;
    }
    assert(s@.take(s.len() as int) =~= s@);
    r
}

fn starts_with_paren_chars(f: &Vec<char>) -> (r: bool)
    ensures
        r == starts_with_paren_spec(f@),
{
    f.len() > 0 && (f[0] == '（' || f[0] == '(' || f[0] == '）' || f[0] == ')')
}

fn polish_all(m: &Vec<Vec<char>>) -> (r: Vec<Vec<char>>)
    ensures
        views(r@) == polish(views(m@)),
{
    let mut r: Vec<Vec<char>> = Vec::new();
    let mut i: usize = 0;
    while i < m.len()
        invariant
            i <= m.len(),
            views(r@) == polish(views(m@).take(i as int)),
        decreases m.len() - i,
    {
        let f = &m[i];
        proof {
            assert(views(m@).take(i + 1).drop_last() =~= views(m@).take(i as int));
            assert(views(m@).take(i + 1).last() == f@);
        }
        if !starts_with_paren_chars(f) {
            let stripped = strip_filler_chars(f);
            let g = cap_emojis_chars(&stripped, 1);
            if g.len() > 0 {
                proof {
                    lemma_views_push(r@, g);
                }
                r.push(g);
            }
        }
        i = i + 1;
    }
    assert(views(m@).take(m.len() as int) =~= views(m@));
    r
}

fn conjunction_list() -> (r: Vec<Vec<char>>)
    ensures
        views(r@) == conjunctions(),
{
    let r = vec![
        vec!['而', '且'],
        vec!['但', '是'],
        vec!['可', '是'],
        vec!['所', '以'],
        vec!['因', '為'],
        vec!['然', '後'],
        vec!['不', '過'],
        vec!['另', '外'],
        vec!['舉', '例', '來', '說'],
        vec!['比', '方', '說'],
        vec!['再', '者'],
        vec!['其', '次'],
        vec!['首', '先'],
        vec!['總', '之'],
        vec!['於', '是'],
        vec!['結', '果'],
        vec!['然', '而'],
        vec!['並', '且'],
        vec!['或', '是'],
        vec!['或', '者'],
    ];
    assert(views(r@) =~= conjunctions());
    r
}

fn is_dangling_chars(f: &Vec<char>) -> (r: bool)
    ensures
        r == is_dangling_spec(f@),
{
    let t = trimmed(f, 0, f.len());
    proof {
        assert(f@.subrange(0, f@.len() as int) =~= f@);
    }
    let list = conjunction_list();
    let mut j: usize = 0;
    while j < list.len()
        invariant
            j <= list.len(),
            views(list@) == conjunctions(),
            t@ == trim(f@),
            forall|k: int| 0 <= k < j ==> conjunctions()[k] != t@,
        decreases list.len() - j,
    {
        if chars_eq(list[j].as_slice(), t.as_slice()) {
            proof {
                assert(conjunctions()[j as int] == t@);
            }
            return true;
        }
        j = j + 1;
    }
    false
}

/// The fragments of a model reply, as short chat messages (see `fragments`).
pub fn split_into_fragments(s: &str) -> (r: Vec<String>)
    ensures
        string_views(r@) == fragments(s@),
{
    let v = chars_of(s);
    let t = trimmed(&v, 0, v.len());
    proof {
        assert(v@.subrange(0, v@.len() as int) =~= v@);
    }
    let cleaned = remove_periods(&t);
    let pipes = ['|', '｜'];
    assert(pipes@ =~= pipe_chars());
    let segs = split_trimmed(&cleaned, pipes.as_slice());
    let expanded = expand_all(&segs);
    let merged = merge_fragments(&expanded);
    let mut result = polish_all(&merged);
    let ghost polished = views(result@);
    result.truncate(MAX_FRAGMENTS);
    proof {
        assert(views(result@) =~= take_max(polished));
    }
    while result.len() > 0 && is_dangling_chars(&result[result.len() - 1])
        invariant
            drop_dangling(views(result@)) == fragments(s@),
        decreases result.len(),
    {
        let ghost before = views(result@);
        result.pop();
        proof {
            assert(views(result@) =~= before.drop_last());
        }
    }
    strings_of(&result)
}

/// Whether a fragment is only a lone conjunction (a cut-off tail).
pub fn is_dangling_tail(s: &str) -> (r: bool)
    ensures
        r == is_dangling_spec(s@),
{
    let v = chars_of(s);
    is_dangling_chars(&v)
}

/// The text keeping only its first `max` emoji.
pub fn cap_emojis(s: &str, max: usize) -> (r: String)
    ensures
        r@ == cap_emojis_spec(s@, max as nat),
{
    let v = chars_of(s);
    let c = cap_emojis_chars(&v, max);
    string_of(c.as_slice())
}

/// Whether a fragment opens with a parenthesis (a stage direction).
pub fn starts_with_paren(s: &str) -> (r: bool)
    ensures
        r == starts_with_paren_spec(s@),
{
    let v = chars_of(s);
    starts_with_paren_chars(&v)
}

/// The text without the filler characters `啊`/`阿` at its end or before
/// punctuation, a tilde or a space; a filler at the start stays.
pub fn strip_filler(s: &str) -> (r: String)
    ensures
        r@ == strip_filler_spec(s@),
{
    let v = chars_of(s);
    let c = strip_filler_chars(&v);
    string_of(c.as_slice())
}

/// A segment cut into pieces at punctuation (see `punct_pieces`).
pub fn split_by_punctuation(s: &str) -> (r: Vec<String>)
    ensures
        string_views(r@) == punct_pieces(s@),
{
    let v = chars_of(s);
    let p = punct_pieces_of(&v);
    strings_of(&p)
}

} // verus!
