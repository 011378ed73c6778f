//! What holds of every fragment list that `split_into_fragments` returns.

use vstd::prelude::*;
use crate::text::{trim, trim_start, trim_end};
use crate::fragments::{is_split_space_spec, is_hard_end, is_soft_break, is_period, punct_scan, punct_pieces, merge_step, push_nonempty, starts_with_lone_punct, only_punct, drop_dangling, is_dangling_spec, strip_upto, filler_dropped, emoji_count, is_emoji_spec, cap_emojis_spec, starts_with_paren_spec, strip_filler_spec, polish, fragments, MAX_FRAGMENTS, drop_periods, keep_trimmed, split_pieces, pipe_chars, expand, merge_all, take_max};

verus! {

// ── prefixes ────────────────────────────────────────────────────────────────

proof fn lemma_drop_dangling_prefix(x: Seq<Seq<char>>)
    ensures
        drop_dangling(x).len() <= x.len(),
        forall|i: int| 0 <= i < drop_dangling(x).len() ==> #[trigger] drop_dangling(x)[i] == x[i],
        drop_dangling(x).len() > 0 ==> !is_dangling_spec(drop_dangling(x).last()),
    decreases x.len(),
{
    if x.len() > 0 && is_dangling_spec(x.last()) {
        lemma_drop_dangling_prefix(x.drop_last());
    }
}

// ── polishing ───────────────────────────────────────────────────────────────

proof fn lemma_strip_upto_head(s: Seq<char>, n: int)
    requires
        1 <= n <= s.len(),
    ensures
        strip_upto(s, n).len() >= 1,
        strip_upto(s, n)[0] == s[0],
    decreases n,
{
    if n > 1 {
        lemma_strip_upto_head(s, n - 1);
        let prev = strip_upto(s, n - 1);
        if !filler_dropped(s, n - 1) {
            assert(prev.push(s[n - 1])[0] == prev[0]);
        }
    } else {
        assert(!filler_dropped(s, 0));
        assert(strip_upto(s, 0).len() == 0);
        assert(strip_upto(s, 1) == strip_upto(s, 0).push(s[0]));
    }
}

proof fn lemma_strip_upto_empty(s: Seq<char>, n: int)
    requires
        n <= 0,
    ensures
        strip_upto(s, n).len() == 0,
{
}

proof fn lemma_emoji_count_push(s: Seq<char>, c: char)
    ensures
        emoji_count(s.push(c)) == emoji_count(s) + if is_emoji_spec(c) {
            1nat
        } else {
            0nat
        },
{
    assert(s.push(c).drop_last() =~= s);
}

proof fn lemma_cap_emojis_count(s: Seq<char>, max: nat)
    ensures
        emoji_count(cap_emojis_spec(s, max)) == if emoji_count(s) < max {
            emoji_count(s)
        } else {
            max
        },
    decreases s.len(),
{
    if s.len() > 0 {
        lemma_cap_emojis_count(s.drop_last(), max);
        lemma_emoji_count_push(cap_emojis_spec(s.drop_last(), max), s.last());
    }
}

proof fn lemma_cap_emojis_head(s: Seq<char>)
    requires
        s.len() >= 1,
    ensures
        cap_emojis_spec(s, 1).len() >= 1,
        cap_emojis_spec(s, 1)[0] == s[0],
    decreases s.len(),
{
    if s.len() > 1 {
        lemma_cap_emojis_head(s.drop_last());
    } else {
        assert(s.drop_last().len() == 0);
        assert(cap_emojis_spec(s.drop_last(), 1) =~= Seq::<char>::empty());
    }
}

/// What each polished fragment is: not empty, not opening with a parenthesis,
/// with at most one emoji.
pub open spec fn well_polished(g: Seq<char>) -> bool {
    &&& g.len() > 0
    &&& !starts_with_paren_spec(g)
    &&& emoji_count(g) <= 1
}

proof fn lemma_polish_one(f: Seq<char>)
    requires
        !starts_with_paren_spec(f),
        cap_emojis_spec(strip_filler_spec(f), 1).len() > 0,
    ensures
        well_polished(cap_emojis_spec(strip_filler_spec(f), 1)),
{
    let st = strip_filler_spec(f);
    lemma_cap_emojis_count(st, 1);
    if f.len() == 0 {
        lemma_strip_upto_empty(f, 0);
        assert(st.len() == 0);
        assert(cap_emojis_spec(st, 1) =~= st);
    } else {
        lemma_strip_upto_head(f, f.len() as int);
        lemma_cap_emojis_head(st);
    }
}

proof fn lemma_polish_well(m: Seq<Seq<char>>)
    ensures
        forall|i: int| 0 <= i < polish(m).len() ==> well_polished(#[trigger] polish(m)[i]),
    decreases m.len(),
{
    if m.len() > 0 {
        lemma_polish_well(m.drop_last());
        if !starts_with_paren_spec(m.last()) {
            let g = cap_emojis_spec(strip_filler_spec(m.last()), 1);
            let prev = polish(m.drop_last());
            if g.len() > 0 {
                lemma_polish_one(m.last());
                assert(polish(m) == prev.push(g));
                assert forall|i: int| 0 <= i < polish(m).len() implies well_polished(
                    #[trigger] polish(m)[i],
                ) by {
                    if i < prev.len() {
                        assert(polish(m)[i] == prev[i]);
                    }
                }
            } else {
                assert(polish(m) == prev);
            }
        } else {
            assert(polish(m) == polish(m.drop_last()));
        }
    }
}

/// A reply gives at most `MAX_FRAGMENTS` fragments; none is empty, none opens
/// with a parenthesis, none holds more than one emoji, and the last one is never
/// a lone conjunction.
pub proof fn lemma_fragments_shape(s: Seq<char>)
    ensures
        fragments(s).len() <= MAX_FRAGMENTS,
        forall|i: int| 0 <= i < fragments(s).len() ==> well_polished(#[trigger] fragments(s)[i]),
        fragments(s).len() > 0 ==> !is_dangling_spec(fragments(s).last()),
{
    let cleaned = drop_periods(trim(s));
    let p = polish(merge_all(expand(keep_trimmed(split_pieces(cleaned, pipe_chars())))));
    lemma_polish_well(merge_all(expand(keep_trimmed(split_pieces(cleaned, pipe_chars())))));
    let t = take_max(p);
    assert forall|i: int| 0 <= i < t.len() implies well_polished(#[trigger] t[i]) by {
        assert(t[i] == p[i]);
    }
    lemma_drop_dangling_prefix(t);
    assert forall|i: int| 0 <= i < fragments(s).len() implies well_polished(
        #[trigger] fragments(s)[i],
    ) by {
        assert(fragments(s)[i] == t[i]);
    }
}

/// A character of the miscellaneous-symbols/dingbats block U+2600..=U+27BF or
/// of U+1F000..=U+1FFFF.
pub open spec fn in_emoji_blocks(c: char) -> bool {
    (0x2600 <= c as u32 && c as u32 <= 0x27BF) || (0x1F000 <= c as u32 && c as u32 <= 0x1FFFF)
}

proof fn lemma_emoji_count_at_least_one(g: Seq<char>, j: int)
    requires
        0 <= j < g.len(),
        in_emoji_blocks(g[j]),
    ensures
        emoji_count(g) >= 1,
    decreases g.len(),
{
    if j < g.len() - 1 {
        assert(g.drop_last()[j] == g[j]);
        lemma_emoji_count_at_least_one(g.drop_last(), j);
    }
}

proof fn lemma_emoji_count_two(g: Seq<char>, j: int, k: int)
    requires
        0 <= j < k < g.len(),
        in_emoji_blocks(g[j]),
        in_emoji_blocks(g[k]),
    ensures
        emoji_count(g) >= 2,
    decreases g.len(),
{
    assert(g.drop_last()[j] == g[j]);
    if k == g.len() - 1 {
        lemma_emoji_count_at_least_one(g.drop_last(), j);
    } else {
        assert(g.drop_last()[k] == g[k]);
        lemma_emoji_count_two(g.drop_last(), j, k);
    }
}

/// The characters counted and capped as emoji are exactly those of the two
/// blocks, such as `✨` (U+2728) and `❤` (U+2764).
pub proof fn lemma_emoji_blocks(c: char)
    ensures
        is_emoji_spec(c) <==> in_emoji_blocks(c),
        is_emoji_spec('✨') && is_emoji_spec('❤') && is_emoji_spec('😀'),
{
}

/// No fragment holds two emoji: of any two characters of a fragment, at most
/// one lies in U+2600..=U+27BF or U+1F000..=U+1FFFF (so `✨✨✨` and `❤❤` are
/// cut down to one each).
pub proof fn lemma_fragments_one_emoji(s: Seq<char>)
    ensures
        forall|i: int, j: int, k: int|
            0 <= i < fragments(s).len() && 0 <= j < k < fragments(s)[i].len() && in_emoji_blocks(
                #[trigger] fragments(s)[i][j],
            ) ==> !in_emoji_blocks(#[trigger] fragments(s)[i][k]),
{
    lemma_fragments_shape(s);
    assert forall|i: int, j: int, k: int|
        0 <= i < fragments(s).len() && 0 <= j < k < fragments(s)[i].len() && in_emoji_blocks(
            #[trigger] fragments(s)[i][j],
        ) implies !in_emoji_blocks(#[trigger] fragments(s)[i][k]) by {
        assert(well_polished(fragments(s)[i]));
        if in_emoji_blocks(fragments(s)[i][k]) {
            lemma_emoji_count_two(fragments(s)[i], j, k);
        }
    }
}

// ── characters ──────────────────────────────────────────────────────────────

/// A character that no fragment holds: a period or a pipe.
pub open spec fn is_clean(c: char) -> bool {
    !is_period(c) && c != '|' && c != '｜'
}

pub open spec fn clean_text(s: Seq<char>) -> bool {
    forall|k: int| 0 <= k < s.len() ==> is_clean(#[trigger] s[k])
}

pub open spec fn clean_all(fs: Seq<Seq<char>>) -> bool {
    forall|i: int| 0 <= i < fs.len() ==> clean_text(#[trigger] fs[i])
}

proof fn lemma_drop_periods(s: Seq<char>)
    ensures
        forall|k: int| 0 <= k < drop_periods(s).len() ==> !is_period(#[trigger] drop_periods(s)[k]),
    decreases s.len(),
{
    if s.len() > 0 {
        lemma_drop_periods(s.drop_last());
        let d = drop_periods(s.drop_last());
        if !is_period(s.last()) {
            assert forall|k: int| 0 <= k < drop_periods(s).len() implies !is_period(
                #[trigger] drop_periods(s)[k],
            ) by {
                if k < d.len() {
                    assert(drop_periods(s)[k] == d[k]);
                }
            }
        }
    }
}

proof fn lemma_split_pieces_clean(s: Seq<char>)
    requires
        forall|k: int| 0 <= k < s.len() ==> !is_period(#[trigger] s[k]),
    ensures
        clean_all(split_pieces(s, pipe_chars())),
        split_pieces(s, pipe_chars()).len() >= 1,
    decreases s.len(),
{
    let seps = pipe_chars();
    if s.len() > 0 {
        let rest = s.drop_last();
        assert forall|k: int| 0 <= k < rest.len() implies !is_period(#[trigger] rest[k]) by {
            assert(rest[k] == s[k]);
        }
        lemma_split_pieces_clean(rest);
        let p = split_pieces(rest, seps);
        let c = s.last();
        assert(seps[0] == '|' && seps[1] == '｜');
        if seps.contains(c) {
            assert(split_pieces(s, seps) == p.push(Seq::<char>::empty()));
            assert forall|i: int| 0 <= i < split_pieces(s, seps).len() implies clean_text(
                #[trigger] split_pieces(s, seps)[i],
            ) by {
                if i < p.len() {
                    assert(split_pieces(s, seps)[i] == p[i]);
                }
            }
        } else {
            assert(c != '|' && c != '｜');
            assert(!is_period(s[s.len() - 1]));
            let q = split_pieces(s, seps);
            assert(q == p.update(p.len() - 1, p.last().push(c)));
            assert forall|i: int| 0 <= i < q.len() implies clean_text(#[trigger] q[i]) by {
                if i < p.len() - 1 {
                    assert(q[i] == p[i]);
                } else {
                    assert(clean_text(p[p.len() - 1]));
                    assert forall|k: int| 0 <= k < q[i].len() implies is_clean(#[trigger] q[i][k]) by {
                        if k < p.last().len() {
                            assert(q[i][k] == p.last()[k]);
                        }
                    }
                }
            }
        }
    }
}

proof fn lemma_trim_start_clean(s: Seq<char>)
    requires
        clean_text(s),
    ensures
        clean_text(trim_start(s)),
    decreases s.len(),
{
    if s.len() > 0 && crate::text::is_ws(s[0]) {
        let r = s.drop_first();
        assert forall|k: int| 0 <= k < r.len() implies is_clean(#[trigger] r[k]) by {
            assert(r[k] == s[k + 1]);
        }
        lemma_trim_start_clean(r);
    }
}

proof fn lemma_trim_end_clean(s: Seq<char>)
    requires
        clean_text(s),
    ensures
        clean_text(trim_end(s)),
    decreases s.len(),
{
    if s.len() > 0 && crate::text::is_ws(s.last()) {
        let r = s.drop_last();
        assert forall|k: int| 0 <= k < r.len() implies is_clean(#[trigger] r[k]) by {
            assert(r[k] == s[k]);
        }
        lemma_trim_end_clean(r);
    }
}

proof fn lemma_trim_clean(s: Seq<char>)
    requires
        clean_text(s),
    ensures
        clean_text(trim(s)),
{
    lemma_trim_start_clean(s);
    lemma_trim_end_clean(trim_start(s));
}

proof fn lemma_subrange_clean(s: Seq<char>, a: int, b: int)
    requires
        clean_text(s),
        0 <= a <= b <= s.len(),
    ensures
        clean_text(s.subrange(a, b)),
{
    assert forall|k: int| 0 <= k < b - a implies is_clean(#[trigger] s.subrange(a, b)[k]) by {
        assert(s.subrange(a, b)[k] == s[a + k]);
    }
}

proof fn lemma_push_nonempty_clean(r: Seq<Seq<char>>, t: Seq<char>)
    requires
        clean_all(r),
        clean_text(t),
    ensures
        clean_all(push_nonempty(r, t)),
{
    if t.len() > 0 {
        assert forall|i: int| 0 <= i < r.len() + 1 implies clean_text(#[trigger] r.push(t)[i]) by {
            if i < r.len() {
                assert(r.push(t)[i] == r[i]);
            }
        }
    }
}

proof fn lemma_keep_trimmed_clean(p: Seq<Seq<char>>)
    requires
        clean_all(p),
    ensures
        clean_all(keep_trimmed(p)),
    decreases p.len(),
{
    if p.len() > 0 {
        let rest = p.drop_last();
        assert forall|i: int| 0 <= i < rest.len() implies clean_text(#[trigger] rest[i]) by {
            assert(rest[i] == p[i]);
        }
        lemma_keep_trimmed_clean(rest);
        assert(clean_text(p[p.len() - 1]));
        lemma_trim_clean(p.last());
        lemma_push_nonempty_clean(keep_trimmed(rest), trim(p.last()));
    }
}

proof fn lemma_punct_scan_clean(s: Seq<char>, n: int)
    requires
        clean_text(s),
        0 <= n <= s.len(),
    ensures
        clean_all(punct_scan(s, n).0),
        0 <= punct_scan(s, n).1 <= n,
    decreases n,
{
    if n > 0 {
        lemma_punct_scan_clean(s, n - 1);
        let (r, st) = punct_scan(s, n - 1);
        lemma_subrange_clean(s, st, n);
        lemma_subrange_clean(s, st, n - 1);
        lemma_trim_clean(s.subrange(st, n));
        lemma_trim_clean(s.subrange(st, n - 1));
        lemma_push_nonempty_clean(r, trim(s.subrange(st, n)));
        lemma_push_nonempty_clean(r, trim(s.subrange(st, n - 1)));
    }
}

proof fn lemma_punct_pieces_clean(s: Seq<char>)
    requires
        clean_text(s),
    ensures
        clean_all(punct_pieces(s)),
{
    let n = s.len() as int;
    lemma_punct_scan_clean(s, n);
    let (r, st) = punct_scan(s, n);
    lemma_subrange_clean(s, st, n);
    lemma_trim_clean(s.subrange(st, n));
    lemma_push_nonempty_clean(r, trim(s.subrange(st, n)));
    lemma_trim_clean(s);
}

proof fn lemma_expand_clean(segs: Seq<Seq<char>>)
    requires
        clean_all(segs),
    ensures
        clean_all(expand(segs)),
    decreases segs.len(),
{
    if segs.len() > 0 {
        let rest = segs.drop_last();
        assert forall|i: int| 0 <= i < rest.len() implies clean_text(#[trigger] rest[i]) by {
            assert(rest[i] == segs[i]);
        }
        lemma_expand_clean(rest);
        assert(clean_text(segs[segs.len() - 1]));
        lemma_punct_pieces_clean(segs.last());
        let a = expand(rest);
        let b = punct_pieces(segs.last());
        assert forall|i: int| 0 <= i < (a + b).len() implies clean_text(#[trigger] (a + b)[i]) by {
            if i < a.len() {
                assert((a + b)[i] == a[i]);
            } else {
                assert((a + b)[i] == b[i - a.len()]);
            }
        }
    }
}

proof fn lemma_merge_step_clean(m: Seq<Seq<char>>, f: Seq<char>)
    requires
        clean_all(m),
        clean_text(f),
    ensures
        clean_all(merge_step(m, f)),
{
    if (starts_with_lone_punct(f) || only_punct(f)) && m.len() > 0 {
        let last = m[m.len() - 1];
        assert(clean_text(last));
        if only_punct(f) {
            let u = m.update(m.len() - 1, last + f);
            assert forall|i: int| 0 <= i < u.len() implies clean_text(#[trigger] u[i]) by {
                if i < m.len() - 1 {
                    assert(u[i] == m[i]);
                } else {
                    assert forall|k: int| 0 <= k < (last + f).len() implies is_clean(
                        #[trigger] (last + f)[k],
                    ) by {
                        if k < last.len() {
                            assert((last + f)[k] == last[k]);
                        } else {
                            assert((last + f)[k] == f[k - last.len()]);
                        }
                    }
                }
            }
        } else {
            let u = m.update(m.len() - 1, last.push(f[0]));
            assert forall|i: int| 0 <= i < u.len() implies clean_text(#[trigger] u[i]) by {
                if i < m.len() - 1 {
                    assert(u[i] == m[i]);
                } else {
                    assert forall|k: int| 0 <= k < last.len() + 1 implies is_clean(
                        #[trigger] last.push(f[0])[k],
                    ) by {
                        if k < last.len() {
                            assert(last.push(f[0])[k] == last[k]);
                        }
                    }
                }
            }
            lemma_subrange_clean(f, 1, f.len() as int);
            assert(f.drop_first() =~= f.subrange(1, f.len() as int));
            lemma_trim_clean(f.drop_first());
            lemma_push_nonempty_clean(u, trim(f.drop_first()));
        }
    } else {
        lemma_push_nonempty_clean(m, f);
        if f.len() == 0 {
            assert forall|i: int| 0 <= i < m.len() + 1 implies clean_text(#[trigger] m.push(f)[i]) by {
                if i < m.len() {
                    assert(m.push(f)[i] == m[i]);
                }
            }
        }
    }
}

proof fn lemma_merge_all_clean(fs: Seq<Seq<char>>)
    requires
        clean_all(fs),
    ensures
        clean_all(merge_all(fs)),
    decreases fs.len(),
{
    if fs.len() > 0 {
        let rest = fs.drop_last();
        assert forall|i: int| 0 <= i < rest.len() implies clean_text(#[trigger] rest[i]) by {
            assert(rest[i] == fs[i]);
        }
        lemma_merge_all_clean(rest);
        assert(clean_text(fs[fs.len() - 1]));
        lemma_merge_step_clean(merge_all(rest), fs.last());
    }
}

proof fn lemma_strip_upto_clean(s: Seq<char>, n: int)
    requires
        clean_text(s),
        n <= s.len(),
    ensures
        clean_text(strip_upto(s, n)),
    decreases n,
{
    if n > 0 {
        lemma_strip_upto_clean(s, n - 1);
        let prev = strip_upto(s, n - 1);
        assert forall|k: int| 0 <= k < prev.len() + 1 implies is_clean(
            #[trigger] prev.push(s[n - 1])[k],
        ) by {
            if k < prev.len() {
                assert(prev.push(s[n - 1])[k] == prev[k]);
            }
        }
    }
}

proof fn lemma_cap_emojis_clean(s: Seq<char>, max: nat)
    requires
        clean_text(s),
    ensures
        clean_text(cap_emojis_spec(s, max)),
    decreases s.len(),
{
    if s.len() > 0 {
        let rest = s.drop_last();
        assert forall|k: int| 0 <= k < rest.len() implies is_clean(#[trigger] rest[k]) by {
            assert(rest[k] == s[k]);
        }
        lemma_cap_emojis_clean(rest, max);
        let prev = cap_emojis_spec(rest, max);
        assert(is_clean(s[s.len() - 1]));
        assert forall|k: int| 0 <= k < prev.len() + 1 implies is_clean(
            #[trigger] prev.push(s.last())[k],
        ) by {
            if k < prev.len() {
                assert(prev.push(s.last())[k] == prev[k]);
            }
        }
    }
}

proof fn lemma_polish_clean(m: Seq<Seq<char>>)
    requires
        clean_all(m),
    ensures
        clean_all(polish(m)),
    decreases m.len(),
{
    if m.len() > 0 {
        let rest = m.drop_last();
        assert forall|i: int| 0 <= i < rest.len() implies clean_text(#[trigger] rest[i]) by {
            assert(rest[i] == m[i]);
        }
        lemma_polish_clean(rest);
        assert(clean_text(m[m.len() - 1]));
        lemma_strip_upto_clean(m.last(), m.last().len() as int);
        lemma_cap_emojis_clean(strip_filler_spec(m.last()), 1);
        lemma_push_nonempty_clean(polish(rest), cap_emojis_spec(strip_filler_spec(m.last()), 1));
    }
}

/// No fragment holds a period (`。` or `.`) or a pipe (`|` or `｜`).
pub proof fn lemma_fragments_clean(s: Seq<char>)
    ensures
        clean_all(fragments(s)),
{
    let cleaned = drop_periods(trim(s));
    lemma_drop_periods(trim(s));
    lemma_split_pieces_clean(cleaned);
    let pieces = split_pieces(cleaned, pipe_chars());
    lemma_keep_trimmed_clean(pieces);
    lemma_expand_clean(keep_trimmed(pieces));
    lemma_merge_all_clean(expand(keep_trimmed(pieces)));
    let p = polish(merge_all(expand(keep_trimmed(pieces))));
    lemma_polish_clean(merge_all(expand(keep_trimmed(pieces))));
    let t = take_max(p);
    assert forall|i: int| 0 <= i < t.len() implies clean_text(#[trigger] t[i]) by {
        assert(t[i] == p[i]);
    }
    lemma_drop_dangling_prefix(t);
    assert forall|i: int| 0 <= i < fragments(s).len() implies clean_text(
        #[trigger] fragments(s)[i],
    ) by {
        assert(fragments(s)[i] == t[i]);
    }
}

// ── no cut without a break character ────────────────────────────────────────

/// A character at which a reply may be cut: a pipe, `，、,！？!?`, or a space.
pub open spec fn is_break_char(c: char) -> bool {
    c == '|' || c == '｜' || is_hard_end(c) || is_soft_break(c) || c == ' ' || c == '\u{3000}'
}

pub open spec fn unbroken(s: Seq<char>) -> bool {
    forall|k: int| 0 <= k < s.len() ==> !is_break_char(#[trigger] s[k])
}

proof fn lemma_unbroken_drop_first(s: Seq<char>)
    requires
        unbroken(s),
        s.len() > 0,
    ensures
        unbroken(s.drop_first()),
{
    assert forall|k: int| 0 <= k < s.len() - 1 implies !is_break_char(#[trigger] s.drop_first()[k]) by {
        assert(s.drop_first()[k] == s[k + 1]);
    }
}

proof fn lemma_unbroken_drop_last(s: Seq<char>)
    requires
        unbroken(s),
        s.len() > 0,
    ensures
        unbroken(s.drop_last()),
{
    assert forall|k: int| 0 <= k < s.len() - 1 implies !is_break_char(#[trigger] s.drop_last()[k]) by {
        assert(s.drop_last()[k] == s[k]);
    }
}

proof fn lemma_trim_unbroken(s: Seq<char>)
    requires
        unbroken(s),
    ensures
        unbroken(trim_start(s)),
        unbroken(trim(s)),
    decreases s.len(),
{
    if s.len() > 0 && crate::text::is_ws(s[0]) {
        lemma_unbroken_drop_first(s);
        lemma_trim_unbroken(s.drop_first());
    }
    lemma_trim_end_unbroken(trim_start(s));
}

proof fn lemma_trim_end_unbroken(s: Seq<char>)
    requires
        unbroken(s),
    ensures
        unbroken(trim_end(s)),
    decreases s.len(),
{
    if s.len() > 0 && crate::text::is_ws(s.last()) {
        lemma_unbroken_drop_last(s);
        lemma_trim_end_unbroken(s.drop_last());
    }
}

proof fn lemma_drop_periods_unbroken(s: Seq<char>)
    requires
        unbroken(s),
    ensures
        unbroken(drop_periods(s)),
    decreases s.len(),
{
    if s.len() > 0 {
        lemma_unbroken_drop_last(s);
        lemma_drop_periods_unbroken(s.drop_last());
        let d = drop_periods(s.drop_last());
        assert(!is_break_char(s[s.len() - 1]));
        assert forall|k: int| 0 <= k < d.len() + 1 implies !is_break_char(#[trigger] d.push(s.last())[k]) by {
            if k < d.len() {
                assert(d.push(s.last())[k] == d[k]);
            }
        }
    }
}

proof fn lemma_split_unbroken(s: Seq<char>)
    requires
        unbroken(s),
    ensures
        split_pieces(s, pipe_chars()) == seq![s],
    decreases s.len(),
{
    if s.len() > 0 {
        lemma_unbroken_drop_last(s);
        lemma_split_unbroken(s.drop_last());
        assert(!is_break_char(s[s.len() - 1]));
        assert(!pipe_chars().contains(s.last())) by {
            if pipe_chars().contains(s.last()) {
                let i = choose|i: int| 0 <= i < pipe_chars().len() && pipe_chars()[i] == s.last();
                assert(pipe_chars()[0] == '|' && pipe_chars()[1] == '｜');
            }
        }
        assert(s.drop_last().push(s.last()) =~= s);
        assert(seq![s.drop_last()].update(0, s.drop_last().push(s.last())) =~= seq![s]);
    } else {
        assert(s =~= Seq::<char>::empty());
    }
}

proof fn lemma_punct_scan_unbroken(s: Seq<char>, n: int)
    requires
        unbroken(s),
        0 <= n <= s.len(),
    ensures
        punct_scan(s, n).0.len() == 0,
        punct_scan(s, n).1 == 0,
    decreases n,
{
    if n > 0 {
        lemma_punct_scan_unbroken(s, n - 1);
        assert(!is_break_char(s[n - 1]));
    }
}

proof fn lemma_punct_pieces_unbroken(s: Seq<char>)
    requires
        unbroken(s),
    ensures
        punct_pieces(s).len() == 1,
{
    lemma_punct_scan_unbroken(s, s.len() as int);
}

/// Where a reply holds no pipe, none of `，、,！？!?` and no space, it is never
/// cut, however long: it gives at most one fragment. Quote marks such as
/// `「」『』` are no break characters.
pub proof fn lemma_unbroken_reply_is_one_fragment(s: Seq<char>)
    requires
        unbroken(s),
    ensures
        fragments(s).len() <= 1,
{
    lemma_trim_unbroken(s);
    let cleaned = drop_periods(trim(s));
    lemma_drop_periods_unbroken(trim(s));
    lemma_split_unbroken(cleaned);
    let kept = keep_trimmed(seq![cleaned]);
    assert(seq![cleaned].drop_last() =~= Seq::<Seq<char>>::empty());
    assert(seq![cleaned].last() == cleaned);
    assert(keep_trimmed(Seq::<Seq<char>>::empty()) == Seq::<Seq<char>>::empty());
    assert(kept == push_nonempty(Seq::<Seq<char>>::empty(), trim(cleaned)));
    assert(kept.len() <= 1);
    let ex = expand(kept);
    if kept.len() == 1 {
        assert(kept =~= seq![trim(cleaned)]);
        assert(kept[0] == trim(cleaned));
        lemma_trim_unbroken(cleaned);
        lemma_punct_pieces_unbroken(kept[0]);
        assert(kept.drop_last() =~= Seq::<Seq<char>>::empty());
        assert(ex == expand(kept.drop_last()) + punct_pieces(kept.last()));
        assert(ex.len() == 1);
        assert(ex.drop_last() =~= Seq::<Seq<char>>::empty());
        assert(merge_all(Seq::<Seq<char>>::empty()) == Seq::<Seq<char>>::empty());
        assert(merge_all(ex.drop_last()) == Seq::<Seq<char>>::empty());
        assert(merge_all(ex) == merge_step(Seq::<Seq<char>>::empty(), ex.last()));
    } else {
        assert(ex.len() == 0);
    }
    let m = merge_all(ex);
    assert(m.len() <= 1);
    lemma_polish_len(m);
    let t = take_max(polish(m));
    lemma_drop_dangling_prefix(t);
}

proof fn lemma_polish_len(m: Seq<Seq<char>>)
    ensures
        polish(m).len() <= m.len(),
    decreases m.len(),
{
    if m.len() > 0 {
        lemma_polish_len(m.drop_last());
    }
}

// ── fragments keep the text's characters in order ───────────────────────────

/// `m` places the characters of `a` at increasing positions of `b`.
pub open spec fn embeds(a: Seq<char>, b: Seq<char>, m: Seq<int>) -> bool {
    &&& m.len() == a.len()
    &&& forall|i: int| 0 <= i < m.len() ==> 0 <= #[trigger] m[i] < b.len() && a[i] == b[m[i]]
    &&& forall|i: int, j: int| 0 <= i < j < m.len() ==> #[trigger] m[i] < #[trigger] m[j]
}

/// `a` is `b` with some characters left out.
pub open spec fn is_subseq(a: Seq<char>, b: Seq<char>) -> bool {
    exists|m: Seq<int>| embeds(a, b, m)
}

/// The fragments one after the other.
pub open spec fn flatten(fs: Seq<Seq<char>>) -> Seq<char>
    decreases fs.len(),
{
    if fs.len() == 0 {
        Seq::empty()
    } else {
        flatten(fs.drop_last()) + fs.last()
    }
}

proof fn lemma_subseq_subrange(b: Seq<char>, lo: int, hi: int)
    requires
        0 <= lo <= hi <= b.len(),
    ensures
        is_subseq(b.subrange(lo, hi), b),
{
    let m = Seq::new((hi - lo) as nat, |i: int| i + lo);
    assert(embeds(b.subrange(lo, hi), b, m));
}

proof fn lemma_subseq_refl(b: Seq<char>)
    ensures
        is_subseq(b, b),
{
    lemma_subseq_subrange(b, 0, b.len() as int);
    assert(b.subrange(0, b.len() as int) =~= b);
}

proof fn lemma_subseq_empty(b: Seq<char>)
    ensures
        is_subseq(Seq::empty(), b),
{
    assert(embeds(Seq::empty(), b, Seq::empty()));
}

proof fn lemma_subseq_trans(a: Seq<char>, b: Seq<char>, c: Seq<char>)
    requires
        is_subseq(a, b),
        is_subseq(b, c),
    ensures
        is_subseq(a, c),
{
    let m1 = choose|m: Seq<int>| embeds(a, b, m);
    let m2 = choose|m: Seq<int>| embeds(b, c, m);
    let m = Seq::new(a.len(), |i: int| m2[m1[i]]);
    assert forall|i: int| 0 <= i < m.len() implies 0 <= #[trigger] m[i] < c.len() && a[i] == c[m[i]] by {
        assert(0 <= m1[i] < b.len());
        assert(0 <= m2[m1[i]] < c.len());
    }
    assert forall|i: int, j: int| 0 <= i < j < m.len() implies #[trigger] m[i] < #[trigger] m[j] by {
        assert(m1[i] < m1[j]);
        assert(0 <= m1[i] < b.len() && 0 <= m1[j] < b.len());
        assert(m2[m1[i]] < m2[m1[j]]);
    }
    assert(embeds(a, c, m));
}

proof fn lemma_subseq_concat(a1: Seq<char>, b1: Seq<char>, a2: Seq<char>, b2: Seq<char>)
    requires
        is_subseq(a1, b1),
        is_subseq(a2, b2),
    ensures
        is_subseq(a1 + a2, b1 + b2),
{
    let m1 = choose|m: Seq<int>| embeds(a1, b1, m);
    let m2 = choose|m: Seq<int>| embeds(a2, b2, m);
    let a = a1 + a2;
    let b = b1 + b2;
    let m = Seq::new(a.len(), |i: int| if i < a1.len() { m1[i] } else { m2[i - a1.len()] + b1.len() });
    assert forall|i: int| 0 <= i < m.len() implies 0 <= #[trigger] m[i] < b.len() && a[i] == b[m[i]] by {
        if i < a1.len() {
            assert(0 <= m1[i] < b1.len());
        } else {
            assert(0 <= m2[i - a1.len()] < b2.len());
        }
    }
    assert forall|i: int, j: int| 0 <= i < j < m.len() implies #[trigger] m[i] < #[trigger] m[j] by {
        if j < a1.len() {
            assert(m1[i] < m1[j]);
        } else if i < a1.len() {
            assert(0 <= m1[i] < b1.len());
            assert(0 <= m2[j - a1.len()] < b2.len());
        } else {
            assert(m2[i - a1.len()] < m2[j - a1.len()]);
        }
    }
    assert(embeds(a, b, m));
}

proof fn lemma_subseq_grow(a: Seq<char>, b: Seq<char>, x: Seq<char>)
    requires
        is_subseq(a, b),
    ensures
        is_subseq(a, b + x),
{
    lemma_subseq_empty(x);
    lemma_subseq_concat(a, b, Seq::empty(), x);
    assert(a + Seq::<char>::empty() =~= a);
}

proof fn lemma_subseq_push(a: Seq<char>, b: Seq<char>, c: char)
    requires
        is_subseq(a, b),
    ensures
        is_subseq(a.push(c), b.push(c)),
{
    lemma_subseq_refl(seq![c]);
    lemma_subseq_concat(a, b, seq![c], seq![c]);
    assert(a + seq![c] =~= a.push(c));
    assert(b + seq![c] =~= b.push(c));
}

proof fn lemma_flatten_push(r: Seq<Seq<char>>, t: Seq<char>)
    ensures
        flatten(r.push(t)) == flatten(r) + t,
{
    assert(r.push(t).drop_last() =~= r);
}

proof fn lemma_flatten_add(a: Seq<Seq<char>>, b: Seq<Seq<char>>)
    ensures
        flatten(a + b) == flatten(a) + flatten(b),
    decreases b.len(),
{
    if b.len() == 0 {
        assert(a + b =~= a);
        assert(flatten(a) + flatten(b) =~= flatten(a));
    } else {
        lemma_flatten_add(a, b.drop_last());
        assert((a + b).drop_last() =~= a + b.drop_last());
        assert(flatten(a) + flatten(b.drop_last()) + b.last() =~= flatten(a) + (flatten(
            b.drop_last(),
        ) + b.last()));
    }
}

proof fn lemma_flatten_update_last(p: Seq<Seq<char>>, t: Seq<char>)
    requires
        p.len() > 0,
    ensures
        flatten(p.update(p.len() - 1, t)) == flatten(p.drop_last()) + t,
{
    assert(p.update(p.len() - 1, t).drop_last() =~= p.drop_last());
}

proof fn lemma_flatten_push_nonempty(r: Seq<Seq<char>>, t: Seq<char>, b: Seq<char>)
    requires
        is_subseq(flatten(r), b),
    ensures
        is_subseq(flatten(push_nonempty(r, t)), b + t),
{
    if t.len() > 0 {
        lemma_flatten_push(r, t);
        lemma_subseq_refl(t);
        lemma_subseq_concat(flatten(r), b, t, t);
    } else {
        lemma_subseq_grow(flatten(r), b, t);
    }
}

proof fn lemma_subseq_prefix_flatten(x: Seq<Seq<char>>, k: int)
    requires
        0 <= k <= x.len(),
    ensures
        is_subseq(flatten(x.take(k)), flatten(x)),
{
    lemma_flatten_add(x.take(k), x.skip(k));
    assert(x.take(k) + x.skip(k) =~= x);
    lemma_subseq_refl(flatten(x.take(k)));
    lemma_subseq_grow(flatten(x.take(k)), flatten(x.take(k)), flatten(x.skip(k)));
}

// trimming and periods

proof fn lemma_trim_start_subseq(s: Seq<char>)
    ensures
        is_subseq(trim_start(s), s),
    decreases s.len(),
{
    if s.len() > 0 && crate::text::is_ws(s[0]) {
        lemma_trim_start_subseq(s.drop_first());
        lemma_subseq_subrange(s, 1, s.len() as int);
        assert(s.subrange(1, s.len() as int) =~= s.drop_first());
        lemma_subseq_trans(trim_start(s), s.drop_first(), s);
    } else {
        lemma_subseq_refl(s);
    }
}

proof fn lemma_trim_end_subseq(s: Seq<char>)
    ensures
        is_subseq(trim_end(s), s),
    decreases s.len(),
{
    if s.len() > 0 && crate::text::is_ws(s.last()) {
        lemma_trim_end_subseq(s.drop_last());
        lemma_subseq_subrange(s, 0, s.len() - 1);
        assert(s.subrange(0, s.len() - 1) =~= s.drop_last());
        lemma_subseq_trans(trim_end(s), s.drop_last(), s);
    } else {
        lemma_subseq_refl(s);
    }
}

proof fn lemma_trim_subseq(s: Seq<char>)
    ensures
        is_subseq(trim(s), s),
{
    lemma_trim_start_subseq(s);
    lemma_trim_end_subseq(trim_start(s));
    lemma_subseq_trans(trim(s), trim_start(s), s);
}

proof fn lemma_drop_periods_subseq(s: Seq<char>)
    ensures
        is_subseq(drop_periods(s), s),
    decreases s.len(),
{
    if s.len() == 0 {
        lemma_subseq_refl(s);
    } else {
        lemma_drop_periods_subseq(s.drop_last());
        assert(s.drop_last().push(s.last()) =~= s);
        if is_period(s.last()) {
            lemma_subseq_grow(drop_periods(s.drop_last()), s.drop_last(), seq![s.last()]);
            assert(s.drop_last() + seq![s.last()] =~= s);
        } else {
            lemma_subseq_push(drop_periods(s.drop_last()), s.drop_last(), s.last());
        }
    }
}

// cutting at pipes

proof fn lemma_split_subseq(t: Seq<char>, seps: Seq<char>)
    ensures
        split_pieces(t, seps).len() >= 1,
        is_subseq(flatten(split_pieces(t, seps)), t),
    decreases t.len(),
{
    if t.len() == 0 {
        let p = split_pieces(t, seps);
        assert(p == seq![Seq::<char>::empty()]);
        assert(p.drop_last() =~= Seq::<Seq<char>>::empty());
        assert(flatten(Seq::<Seq<char>>::empty()) == Seq::<char>::empty());
        assert(flatten(p) == flatten(p.drop_last()) + p.last());
        assert(flatten(p) =~= Seq::<char>::empty());
        lemma_subseq_empty(t);
    } else {
        let rest = t.drop_last();
        lemma_split_subseq(rest, seps);
        let p = split_pieces(rest, seps);
        assert(rest.push(t.last()) =~= t);
        if seps.contains(t.last()) {
            lemma_flatten_push(p, Seq::empty());
            assert(flatten(p) + Seq::<char>::empty() =~= flatten(p));
            lemma_subseq_grow(flatten(p), rest, seq![t.last()]);
            assert(rest + seq![t.last()] =~= t);
        } else {
            lemma_flatten_update_last(p, p.last().push(t.last()));
            assert(flatten(p) == flatten(p.drop_last()) + p.last());
            assert(flatten(p.drop_last()) + p.last().push(t.last()) =~= flatten(p).push(t.last()));
            lemma_subseq_push(flatten(p), rest, t.last());
        }
    }
}

proof fn lemma_keep_trimmed_subseq(p: Seq<Seq<char>>)
    ensures
        is_subseq(flatten(keep_trimmed(p)), flatten(p)),
    decreases p.len(),
{
    if p.len() == 0 {
        lemma_subseq_refl(flatten(p));
    } else {
        let rest = p.drop_last();
        lemma_keep_trimmed_subseq(rest);
        lemma_flatten_push_nonempty(keep_trimmed(rest), trim(p.last()), flatten(rest));
        lemma_trim_subseq(p.last());
        lemma_subseq_refl(flatten(rest));
        lemma_subseq_concat(flatten(rest), flatten(rest), trim(p.last()), p.last());
        lemma_subseq_trans(
            flatten(keep_trimmed(p)),
            flatten(rest) + trim(p.last()),
            flatten(rest) + p.last(),
        );
    }
}

// cutting at punctuation

proof fn lemma_punct_scan_subseq(s: Seq<char>, n: int)
    requires
        0 <= n <= s.len(),
    ensures
        0 <= punct_scan(s, n).1 <= n,
        is_subseq(flatten(punct_scan(s, n).0), s.subrange(0, punct_scan(s, n).1)),
    decreases n,
{
    if n == 0 {
        lemma_subseq_empty(s.subrange(0, 0));
    } else {
        lemma_punct_scan_subseq(s, n - 1);
        let (r, st) = punct_scan(s, n - 1);
        let c = s[n - 1];
        if is_hard_end(c) {
            let piece = s.subrange(st, n);
            lemma_flatten_push_nonempty(r, trim(piece), s.subrange(0, st));
            lemma_trim_subseq(piece);
            lemma_subseq_refl(s.subrange(0, st));
            lemma_subseq_concat(s.subrange(0, st), s.subrange(0, st), trim(piece), piece);
            assert(s.subrange(0, st) + piece =~= s.subrange(0, n));
            lemma_subseq_trans(
                flatten(punct_scan(s, n).0),
                s.subrange(0, st) + trim(piece),
                s.subrange(0, n),
            );
        } else if is_soft_break(c) || is_split_space_spec(s, n - 1) {
            let piece = s.subrange(st, n - 1);
            lemma_flatten_push_nonempty(r, trim(piece), s.subrange(0, st));
            lemma_trim_subseq(piece);
            lemma_subseq_refl(s.subrange(0, st));
            lemma_subseq_concat(s.subrange(0, st), s.subrange(0, st), trim(piece), piece);
            assert(s.subrange(0, st) + piece =~= s.subrange(0, n - 1));
            lemma_subseq_trans(
                flatten(punct_scan(s, n).0),
                s.subrange(0, st) + trim(piece),
                s.subrange(0, n - 1),
            );
            lemma_subseq_grow(flatten(punct_scan(s, n).0), s.subrange(0, n - 1), seq![c]);
            assert(s.subrange(0, n - 1) + seq![c] =~= s.subrange(0, n));
        }
    }
}

proof fn lemma_punct_pieces_subseq(s: Seq<char>)
    ensures
        is_subseq(flatten(punct_pieces(s)), s),
{
    let n = s.len() as int;
    lemma_punct_scan_subseq(s, n);
    let (r, st) = punct_scan(s, n);
    let r2 = if st < n {
        push_nonempty(r, trim(s.subrange(st, n)))
    } else {
        r
    };
    if st < n {
        let piece = s.subrange(st, n);
        lemma_flatten_push_nonempty(r, trim(piece), s.subrange(0, st));
        lemma_trim_subseq(piece);
        lemma_subseq_refl(s.subrange(0, st));
        lemma_subseq_concat(s.subrange(0, st), s.subrange(0, st), trim(piece), piece);
        assert(s.subrange(0, st) + piece =~= s);
        lemma_subseq_trans(flatten(r2), s.subrange(0, st) + trim(piece), s);
    } else {
        assert(s.subrange(0, st) =~= s);
    }
    if r2.len() == 0 {
        let one = seq![trim(s)];
        lemma_flatten_push(Seq::<Seq<char>>::empty(), trim(s));
        assert(Seq::<Seq<char>>::empty().push(trim(s)) =~= one);
        assert(Seq::<char>::empty() + trim(s) =~= trim(s));
        lemma_trim_subseq(s);
    }
}

proof fn lemma_expand_subseq(segs: Seq<Seq<char>>)
    ensures
        is_subseq(flatten(expand(segs)), flatten(segs)),
    decreases segs.len(),
{
    if segs.len() == 0 {
        lemma_subseq_refl(flatten(segs));
    } else {
        let rest = segs.drop_last();
        lemma_expand_subseq(rest);
        lemma_flatten_add(expand(rest), punct_pieces(segs.last()));
        lemma_punct_pieces_subseq(segs.last());
        lemma_subseq_concat(
            flatten(expand(rest)),
            flatten(rest),
            flatten(punct_pieces(segs.last())),
            segs.last(),
        );
    }
}

// merging stray punctuation

proof fn lemma_merge_step_subseq(m: Seq<Seq<char>>, f: Seq<char>)
    ensures
        is_subseq(flatten(merge_step(m, f)), flatten(m) + f),
{
    if (starts_with_lone_punct(f) || only_punct(f)) && m.len() > 0 {
        let last = m.last();
        if only_punct(f) {
            lemma_flatten_update_last(m, last + f);
            assert(flatten(m) == flatten(m.drop_last()) + last);
            assert(flatten(m.drop_last()) + (last + f) =~= flatten(m) + f);
            lemma_subseq_refl(flatten(m) + f);
        } else {
            let u = m.update(m.len() - 1, last.push(f[0]));
            lemma_flatten_update_last(m, last.push(f[0]));
            assert(flatten(m) == flatten(m.drop_last()) + last);
            assert(flatten(u) =~= flatten(m).push(f[0]));
            lemma_subseq_refl(flatten(u));
            lemma_flatten_push_nonempty(u, trim(f.drop_first()), flatten(u));
            lemma_trim_subseq(f.drop_first());
            lemma_subseq_concat(flatten(u), flatten(u), trim(f.drop_first()), f.drop_first());
            assert(flatten(u) + f.drop_first() =~= flatten(m) + f);
            lemma_subseq_trans(
                flatten(merge_step(m, f)),
                flatten(u) + trim(f.drop_first()),
                flatten(m) + f,
            );
        }
    } else {
        lemma_flatten_push(m, f);
        lemma_subseq_refl(flatten(m) + f);
    }
}

proof fn lemma_merge_all_subseq(fs: Seq<Seq<char>>)
    ensures
        is_subseq(flatten(merge_all(fs)), flatten(fs)),
    decreases fs.len(),
{
    if fs.len() == 0 {
        lemma_subseq_refl(flatten(fs));
    } else {
        let rest = fs.drop_last();
        lemma_merge_all_subseq(rest);
        lemma_merge_step_subseq(merge_all(rest), fs.last());
        lemma_subseq_refl(fs.last());
        lemma_subseq_concat(flatten(merge_all(rest)), flatten(rest), fs.last(), fs.last());
        lemma_subseq_trans(
            flatten(merge_all(fs)),
            flatten(merge_all(rest)) + fs.last(),
            flatten(fs),
        );
    }
}

// polishing

proof fn lemma_strip_upto_subseq(s: Seq<char>, n: int)
    requires
        0 <= n <= s.len(),
    ensures
        is_subseq(strip_upto(s, n), s.subrange(0, n)),
    decreases n,
{
    if n == 0 {
        lemma_subseq_empty(s.subrange(0, 0));
    } else {
        lemma_strip_upto_subseq(s, n - 1);
        assert(s.subrange(0, n - 1).push(s[n - 1]) =~= s.subrange(0, n));
        if filler_dropped(s, n - 1) {
            lemma_subseq_grow(strip_upto(s, n - 1), s.subrange(0, n - 1), seq![s[n - 1]]);
            assert(s.subrange(0, n - 1) + seq![s[n - 1]] =~= s.subrange(0, n));
        } else {
            lemma_subseq_push(strip_upto(s, n - 1), s.subrange(0, n - 1), s[n - 1]);
        }
    }
}

proof fn lemma_cap_emojis_subseq(s: Seq<char>, max: nat)
    ensures
        is_subseq(cap_emojis_spec(s, max), s),
    decreases s.len(),
{
    if s.len() == 0 {
        lemma_subseq_refl(s);
    } else {
        lemma_cap_emojis_subseq(s.drop_last(), max);
        assert(s.drop_last().push(s.last()) =~= s);
        if is_emoji_spec(s.last()) && emoji_count(s.drop_last()) >= max {
            lemma_subseq_grow(cap_emojis_spec(s.drop_last(), max), s.drop_last(), seq![s.last()]);
            assert(s.drop_last() + seq![s.last()] =~= s);
        } else {
            lemma_subseq_push(cap_emojis_spec(s.drop_last(), max), s.drop_last(), s.last());
        }
    }
}

proof fn lemma_polish_subseq(m: Seq<Seq<char>>)
    ensures
        is_subseq(flatten(polish(m)), flatten(m)),
    decreases m.len(),
{
    if m.len() == 0 {
        lemma_subseq_refl(flatten(m));
    } else {
        let rest = m.drop_last();
        let f = m.last();
        lemma_polish_subseq(rest);
        if starts_with_paren_spec(f) {
            lemma_subseq_grow(flatten(polish(rest)), flatten(rest), f);
        } else {
            let g = cap_emojis_spec(strip_filler_spec(f), 1);
            lemma_strip_upto_subseq(f, f.len() as int);
            assert(f.subrange(0, f.len() as int) =~= f);
            lemma_cap_emojis_subseq(strip_filler_spec(f), 1);
            lemma_subseq_trans(g, strip_filler_spec(f), f);
            lemma_flatten_push_nonempty(polish(rest), g, flatten(rest));
            lemma_subseq_refl(flatten(rest));
            lemma_subseq_concat(flatten(rest), flatten(rest), g, f);
            lemma_subseq_trans(flatten(polish(m)), flatten(rest) + g, flatten(m));
        }
    }
}

/// The fragments of a reply, one after the other, are the reply with some
/// characters left out: nothing is added, repeated or reordered.
pub proof fn lemma_fragments_subseq(s: Seq<char>)
    ensures
        is_subseq(flatten(fragments(s)), s),
{
    let t = trim(s);
    let cleaned = drop_periods(t);
    lemma_trim_subseq(s);
    lemma_drop_periods_subseq(t);
    lemma_subseq_trans(cleaned, t, s);
    let pieces = split_pieces(cleaned, pipe_chars());
    lemma_split_subseq(cleaned, pipe_chars());
    lemma_keep_trimmed_subseq(pieces);
    let kept = keep_trimmed(pieces);
    lemma_expand_subseq(kept);
    let ex = expand(kept);
    lemma_merge_all_subseq(ex);
    let mg = merge_all(ex);
    lemma_polish_subseq(mg);
    let pl = polish(mg);
    lemma_subseq_trans(flatten(pieces), cleaned, s);
    lemma_subseq_trans(flatten(kept), flatten(pieces), s);
    lemma_subseq_trans(flatten(ex), flatten(kept), s);
    lemma_subseq_trans(flatten(mg), flatten(ex), s);
    lemma_subseq_trans(flatten(pl), flatten(mg), s);
    let tm = take_max(pl);
    if pl.len() > MAX_FRAGMENTS {
        lemma_subseq_prefix_flatten(pl, MAX_FRAGMENTS as int);
    } else {
        lemma_subseq_refl(flatten(pl));
    }
    lemma_subseq_trans(flatten(tm), flatten(pl), s);
    lemma_drop_dangling_prefix(tm);
    let dd = drop_dangling(tm);
    assert(dd =~= tm.take(dd.len() as int));
    lemma_subseq_prefix_flatten(tm, dd.len() as int);
    lemma_subseq_trans(flatten(dd), flatten(tm), s);
}

} // verus!
