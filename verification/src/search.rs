//! Fuzzy search over notes: which notes match a query, and in what order they are listed.
use vstd::prelude::*;
use fuzzy_matcher::FuzzyMatcher;
use crate::model::{Note, NoteView, note_views};
use crate::text::{lowercase, to_lowercase};

verus! {

broadcast use vstd::seq_lib::group_to_multiset_ensures;

/// What `SkimMatcherV2::default().fuzzy_match(choice, pattern)` returns: the skim fuzzy score
/// of `choice` against `pattern`, or `None` when `pattern` does not match.
pub uninterp spec fn skim_score(choice: Seq<char>, pattern: Seq<char>) -> Option<i64>;

/// `fuzzy_matcher::skim::SkimMatcherV2::default().fuzzy_match(choice, pattern)`. The score is
/// named by `skim_score`; the one fact stated besides is that an empty pattern matches every
/// choice with score 0, which the matcher returns before any scoring.
#[verifier::external_body]
fn fuzzy_score(choice: &str, pattern: &str) -> (r: Option<i64>)
    ensures
        r == skim_score(choice@, pattern@),
        pattern@.len() == 0 ==> r == Some(0i64),
{
    fuzzy_matcher::skim::SkimMatcherV2::default().fuzzy_match(choice, pattern)
}

/// The score a tag match earns: above any ordinary text score that search cares about.
pub open spec fn tag_match_score() -> i64 {
    100
}

/// Some tag of the note, lowercased, fuzzy-matches the (lowercased) query `q`.
pub open spec fn tag_hit(tags: Seq<Seq<char>>, q: Seq<char>) -> bool {
    exists|i: int| 0 <= i < tags.len() && (#[trigger] skim_score(lowercase(tags[i]), q)) is Some
}

/// How a note scores against the lowercased query `q`: a tag match scores 100; otherwise the
/// lowercased text is matched; `None` when neither matches.
pub open spec fn note_score(n: NoteView, q: Seq<char>) -> Option<i64> {
    if tag_hit(n.tags, q) {
        Some(tag_match_score())
    } else {
        skim_score(lowercase(n.text), q)
    }
}

/// The matching notes as (index, score) pairs, in note order.
pub open spec fn scored(notes: Seq<NoteView>, q: Seq<char>) -> Seq<(usize, i64)>
    decreases notes.len(),
{
    if notes.len() == 0 {
        seq![]
    } else {
        match note_score(notes.last(), q) {
            Some(sc) => scored(notes.drop_last(), q).push(((notes.len() - 1) as usize, sc)),
            None => scored(notes.drop_last(), q),
        }
    }
}

/// `s` with `x` placed after every element, counted from the end, whose score is below
/// `x`'s: in a list ranked highest first, after all entries that score at least as high.
pub open spec fn insert_by_score(s: Seq<(usize, i64)>, x: (usize, i64)) -> Seq<(usize, i64)>
    decreases s.len(),
{
    if s.len() == 0 || s.last().1 >= x.1 {
        s.push(x)
    } else {
        insert_by_score(s.drop_last(), x).push(s.last())
    }
}

/// The stable sort of `s` by score, highest first.
pub open spec fn sort_by_score(s: Seq<(usize, i64)>) -> Seq<(usize, i64)>
    decreases s.len(),
{
    if s.len() == 0 {
        s
    } else {
        insert_by_score(sort_by_score(s.drop_last()), s.last())
    }
}

/// Where `insert_by_score` puts `x`.
pub open spec fn insert_pos(s: Seq<(usize, i64)>, x: (usize, i64)) -> int
    decreases s.len(),
{
    if s.len() == 0 || s.last().1 >= x.1 {
        s.len() as int
    } else {
        insert_pos(s.drop_last(), x)
    }
}

/// Scores never rise along `s`.
pub open spec fn ranked(s: Seq<(usize, i64)>) -> bool {
    forall|i: int, j: int| 0 <= i < j < s.len() ==> s[i].1 >= s[j].1
}

/// Entries of equal score keep the order of their indices.
pub open spec fn ties_in_index_order(s: Seq<(usize, i64)>) -> bool {
    forall|i: int, j: int| 0 <= i < j < s.len() && s[i].1 == s[j].1 ==> s[i].0 < s[j].0
}

/// The indices of `s` rise strictly.
pub open spec fn indices_rise(s: Seq<(usize, i64)>) -> bool {
    forall|i: int, j: int| 0 <= i < j < s.len() ==> s[i].0 < s[j].0
}

proof fn lemma_insert_pos(s: Seq<(usize, i64)>, x: (usize, i64))
    ensures
        0 <= insert_pos(s, x) <= s.len(),
        insert_by_score(s, x) == s.insert(insert_pos(s, x), x),
        forall|k: int| insert_pos(s, x) <= k < s.len() ==> s[k].1 < x.1,
        insert_pos(s, x) > 0 ==> s[insert_pos(s, x) - 1].1 >= x.1,
    decreases s.len(),
{
    if s.len() == 0 || s.last().1 >= x.1 {
        assert(s.push(x) =~= s.insert(s.len() as int, x));
    } else {
        let t = s.drop_last();
        lemma_insert_pos(t, x);
        let p = insert_pos(t, x);
        assert(t.insert(p, x).push(s.last()) =~= s.insert(p, x));
        assert forall|k: int| p <= k < s.len() implies s[k].1 < x.1 by {
            if k < t.len() {
                assert(s[k] == t[k]);
            }
        }
        if p > 0 {
            assert(s[p - 1] == t[p - 1]);
        }
    }
}

proof fn lemma_insert_keeps_ranking(s: Seq<(usize, i64)>, x: (usize, i64))
    requires
        ranked(s),
        ties_in_index_order(s),
        forall|k: int| 0 <= k < s.len() ==> s[k].0 < x.0,
    ensures
        ranked(insert_by_score(s, x)),
        ties_in_index_order(insert_by_score(s, x)),
        insert_by_score(s, x).to_multiset() == s.to_multiset().insert(x),
        forall|k: int| 0 <= k < insert_by_score(s, x).len() ==> insert_by_score(s, x)[k].0 <= x.0,
{
    lemma_insert_pos(s, x);
    let p = insert_pos(s, x);
    let r = insert_by_score(s, x);
    vstd::seq_lib::to_multiset_insert(s, p, x);
    assert(forall|k: int| 0 <= k < p ==> s[k].1 >= x.1) by {
        if p > 0 {
            assert forall|k: int| 0 <= k < p implies s[k].1 >= x.1 by {
                assert(s[k].1 >= s[p - 1].1);
            }
        }
    }
    assert forall|i: int, j: int| 0 <= i < j < r.len() implies r[i].1 >= r[j].1 by {
        if i < p && j < p {
        } else if i < p && j == p {
        } else if i < p {
            assert(r[j] == s[j - 1]);
        } else if i == p {
            assert(r[j] == s[j - 1]);
        } else {
            assert(r[i] == s[i - 1] && r[j] == s[j - 1]);
        }
    }
    assert forall|i: int, j: int| 0 <= i < j < r.len() && r[i].1 == r[j].1 implies r[i].0
        < r[j].0 by {
        if i < p && j < p {
        } else if i < p && j == p {
        } else if i < p {
            assert(r[j] == s[j - 1]);
        } else if i == p {
            assert(r[j] == s[j - 1]);
        } else {
            assert(r[i] == s[i - 1] && r[j] == s[j - 1]);
        }
    }
    assert forall|k: int| 0 <= k < r.len() implies r[k].0 <= x.0 by {
        if k < p {
        } else if k > p {
            assert(r[k] == s[k - 1]);
        }
    }
}

/// The ranking law: sorting the matches by score keeps exactly the matches (as a multiset),
/// lists higher scores first, and keeps matches of equal score in note order.
pub proof fn lemma_sort_by_score(s: Seq<(usize, i64)>)
    requires
        indices_rise(s),
    ensures
        sort_by_score(s).to_multiset() == s.to_multiset(),
        ranked(sort_by_score(s)),
        ties_in_index_order(sort_by_score(s)),
        forall|k: int| 0 <= k < sort_by_score(s).len() ==>
            (s.len() > 0 && sort_by_score(s)[k].0 <= s.last().0),
    decreases s.len(),
{
    if s.len() > 0 {
        let t = s.drop_last();
        lemma_sort_by_score(t);
        let st = sort_by_score(t);
        assert forall|k: int| 0 <= k < st.len() implies st[k].0 < s.last().0 by {
            assert(t.last().0 < s.last().0);
        }
        lemma_insert_keeps_ranking(st, s.last());
        assert(t.push(s.last()) =~= s);
        vstd::seq_lib::to_multiset_build(t, s.last());
    }
}

/// `scored` lists the matches with their indices in rising order, each index below the
/// number of notes.
pub proof fn lemma_scored_indices(notes: Seq<NoteView>, q: Seq<char>)
    requires
        notes.len() <= usize::MAX,
    ensures
        indices_rise(scored(notes, q)),
        forall|k: int| 0 <= k < scored(notes, q).len() ==> scored(notes, q)[k].0 < notes.len(),
    decreases notes.len(),
{
    if notes.len() > 0 {
        let t = notes.drop_last();
        lemma_scored_indices(t, q);
        let st = scored(t, q);
        if let Some(sc) = note_score(notes.last(), q) {
            let r = st.push(((notes.len() - 1) as usize, sc));
            assert forall|i: int, j: int| 0 <= i < j < r.len() implies r[i].0 < r[j].0 by {
                if j == r.len() - 1 {
                    assert(r[i] == st[i]);
                } else {
                    assert(r[i] == st[i] && r[j] == st[j]);
                }
            }
        }
    }
}

/// The indices of the notes that a query shows, in display order: every note, in order, when
/// the query is blank; otherwise the matches against the lowercased query, best score first.
pub open spec fn visible_order(notes: Seq<NoteView>, query: Seq<char>) -> Seq<usize> {
    if crate::text::trimmed(query).len() == 0 {
        Seq::new(notes.len(), |i: int| i as usize)
    } else {
        sort_by_score(scored(notes, lowercase(query))).map_values(|e: (usize, i64)| e.0)
    }
}

/// The search ignores case: two queries with the same lowercase form (and both blank or both
/// not) show the same notes in the same order.
pub proof fn lemma_search_ignores_case(notes: Seq<NoteView>, q1: Seq<char>, q2: Seq<char>)
    requires
        lowercase(q1) == lowercase(q2),
        (crate::text::trimmed(q1).len() == 0) == (crate::text::trimmed(q2).len() == 0),
    ensures
        visible_order(notes, q1) == visible_order(notes, q2),
{
}

/// Every index that `visible_order` lists is a note's index.
pub proof fn lemma_visible_in_bounds(notes: Seq<NoteView>, query: Seq<char>)
    requires
        notes.len() <= usize::MAX,
    ensures
        forall|k: int| 0 <= k < visible_order(notes, query).len() ==>
            #[trigger] visible_order(notes, query)[k] < notes.len(),
        visible_order(notes, query).len() <= notes.len(),
{
    if crate::text::trimmed(query).len() != 0 {
        let q = lowercase(query);
        let s = scored(notes, q);
        lemma_scored_indices(notes, q);
        lemma_sort_by_score(s);
        let r = sort_by_score(s);
        assert forall|k: int| 0 <= k < r.len() implies r[k].0 < notes.len() by {
            assert(r.to_multiset().count(r[k]) > 0);
            assert(s.to_multiset().count(r[k]) > 0);
            assert(s.contains(r[k]));
        }
        lemma_scored_len(notes, q);
        assert(r.len() == s.len()) by {
            vstd::seq_lib::to_multiset_len(r);
            vstd::seq_lib::to_multiset_len(s);
        }
    }
}

/// Each entry of `scored` is a note's index with that note's score, and each matching note has
/// its entry.
proof fn lemma_scored_entries(notes: Seq<NoteView>, q: Seq<char>)
    requires
        notes.len() <= usize::MAX,
    ensures
        forall|e: (usize, i64)| #[trigger] scored(notes, q).contains(e) ==> e.0 < notes.len()
            && note_score(notes[e.0 as int], q) == Some(e.1),
        forall|k: int| 0 <= k < notes.len() && (#[trigger] note_score(notes[k], q)) is Some
            ==> scored(notes, q).contains((k as usize, note_score(notes[k], q)->0)),
    decreases notes.len(),
{
    if notes.len() > 0 {
        let t = notes.drop_last();
        lemma_scored_entries(t, q);
        let st = scored(t, q);
        let last = (notes.len() - 1) as usize;
        assert forall|e: (usize, i64)| #[trigger] scored(notes, q).contains(e) implies e.0 < notes.len()
            && note_score(notes[e.0 as int], q) == Some(e.1) by {
            if st.contains(e) {
                assert(notes[e.0 as int] == t[e.0 as int]);
            } else {
                let i = choose|i: int| 0 <= i < scored(notes, q).len() && scored(notes, q)[i] == e;
                assert(i == st.len());
            }
        }
        assert forall|k: int| 0 <= k < notes.len() && (#[trigger] note_score(notes[k], q)) is Some
            implies scored(notes, q).contains((k as usize, note_score(notes[k], q)->0)) by {
            if k < t.len() {
                assert(notes[k] == t[k]);
                assert(note_score(t[k], q) is Some);
                let x = (k as usize, note_score(notes[k], q)->0);
                assert(st.contains(x));
                let i = choose|i: int| 0 <= i < st.len() && st[i] == x;
                assert(scored(notes, q)[i] == x);
            } else {
                assert(scored(notes, q)[st.len() as int] == (last, note_score(notes.last(), q)->0));
            }
        }
    }
}

/// The ranking law of search: for a non-blank query, the listed notes are exactly the notes
/// that match (a tag whose lowercase fuzzy-matches the lowercased query scores 100, otherwise
/// the skim score of the lowercased text counts), each listed once, every listed note scores at
/// least as much as every note listed after it, and notes of equal score keep note order.
pub proof fn lemma_search_ranks_matches(notes: Seq<NoteView>, query: Seq<char>)
    requires
        notes.len() <= usize::MAX,
        crate::text::trimmed(query).len() > 0,
    ensures
        ({
            let q = lowercase(query);
            let v = visible_order(notes, query);
            let score = |n: NoteView|
                if (exists|t: int| 0 <= t < n.tags.len() && (#[trigger] skim_score(lowercase(n.tags[t]), q)) is Some) {
                    Some(100i64)
                } else {
                    skim_score(lowercase(n.text), q)
                };
            &&& forall|i: int| 0 <= i < v.len() ==> v[i] < notes.len() && (#[trigger] score(notes[v[i] as int])) is Some
            &&& forall|k: int| 0 <= k < notes.len() && (#[trigger] score(notes[k])) is Some ==> v.contains(k as usize)
            &&& forall|i: int, j: int| 0 <= i < j < v.len() ==> score(notes[v[i] as int])->0 >= score(notes[v[j] as int])->0
            &&& forall|i: int, j: int| 0 <= i < j < v.len() && score(notes[v[i] as int])->0 == score(notes[v[j] as int])->0 ==> v[i] < v[j]
        }),
{
    let q = lowercase(query);
    let s = scored(notes, q);
    let r = sort_by_score(s);
    let v = visible_order(notes, query);
    let score = |n: NoteView|
        if (exists|t: int| 0 <= t < n.tags.len() && (#[trigger] skim_score(lowercase(n.tags[t]), q)) is Some) {
            Some(100i64)
        } else {
            skim_score(lowercase(n.text), q)
        };
    assert forall|n: NoteView| #[trigger] score(n) == note_score(n, q) by {}
    lemma_scored_indices(notes, q);
    lemma_sort_by_score(s);
    lemma_scored_entries(notes, q);
    assert(v == r.map_values(|e: (usize, i64)| e.0));
    assert forall|i: int| 0 <= i < r.len() implies s.contains(#[trigger] r[i]) by {
        assert(r.to_multiset().count(r[i]) > 0);
        assert(s.to_multiset().count(r[i]) > 0);
    }
    assert forall|i: int| 0 <= i < v.len() implies v[i] < notes.len() && (#[trigger] score(notes[v[i] as int])) is Some by {
        assert(s.contains(r[i]));
    }
    assert forall|k: int| 0 <= k < notes.len() && (#[trigger] score(notes[k])) is Some implies v.contains(k as usize) by {
        let x = (k as usize, note_score(notes[k], q)->0);
        assert(s.contains(x));
        assert(s.to_multiset().count(x) > 0);
        assert(r.to_multiset().count(x) > 0);
        assert(r.contains(x));
        let i = choose|i: int| 0 <= i < r.len() && r[i] == x;
        assert(v[i] == k as usize);
    }
    assert forall|i: int, j: int| 0 <= i < j < v.len() implies score(notes[v[i] as int])->0 >= score(notes[v[j] as int])->0 by {
        assert(s.contains(r[i]) && s.contains(r[j]));
    }
    assert forall|i: int, j: int| 0 <= i < j < v.len() && score(notes[v[i] as int])->0 == score(notes[v[j] as int])->0 implies v[i] < v[j] by {
        assert(s.contains(r[i]) && s.contains(r[j]));
    }
}

proof fn lemma_scored_len(notes: Seq<NoteView>, q: Seq<char>)
    ensures
        scored(notes, q).len() <= notes.len(),
    decreases notes.len(),
{
    if notes.len() > 0 {
        lemma_scored_len(notes.drop_last(), q);
    }
}

/// Scores one note against the lowercased query: 100 when some lowercased tag matches,
/// otherwise the score of the lowercased text, if it matches.
pub fn score_note(note: &Note, q: &str) -> (r: Option<i64>)
    ensures
        r == note_score(note@, q@),
{
    let mut i: usize = 0;
    while i < note.tags.len()
        invariant
            i <= note.tags.len(),
            forall|k: int| 0 <= k < i ==> (#[trigger] skim_score(lowercase(note@.tags[k]), q@)) is None,
        decreases note.tags.len() - i,
    {
        let t = to_lowercase(note.tags[i].as_str());
        if fuzzy_score(t.as_str(), q).is_some() {
            assert(skim_score(lowercase(note@.tags[i as int]), q@) is Some);
            return Some(100);
        }
        i = i + 1;
    }
    let t = to_lowercase(note.text.as_str());
    fuzzy_score(t.as_str(), q)
}

/// Sorts (index, score) entries by score, highest first, keeping the given order among equal
/// scores.
pub fn sort_entries_by_score(entries: &Vec<(usize, i64)>) -> (r: Vec<(usize, i64)>)
    ensures
        r@ == sort_by_score(entries@),
{
    let mut out: Vec<(usize, i64)> = Vec::new();
    let mut i: usize = 0;
    while i < entries.len()
        invariant
            i <= entries.len(),
            out@ == sort_by_score(entries@.take(i as int)),
        decreases entries.len() - i,
    {
        let x = entries[i];
        let mut p = out.len();
        assert(out@.take(p as int) =~= out@);
        assert(out@ + out@.skip(p as int) =~= out@);
        while p > 0 && out[p - 1].1 < x.1
            invariant
                p <= out.len(),
                insert_by_score(out@, x) == insert_by_score(out@.take(p as int), x) + out@.skip(p as int),
            decreases p,
        {
            let ghost t = out@.take(p as int);
            assert(t.drop_last() =~= out@.take(p - 1));
            assert(out@.take(p - 1).push(out@[p - 1]) + out@.skip(p as int) =~= out@.take(p - 1) + out@.skip(p - 1));
            p = p - 1;
        }
        proof {
            let t = out@.take(p as int);
            if p == 0 {
                assert(t.push(x) + out@.skip(0) =~= out@.insert(0, x));
            } else {
                assert(t.push(x) + out@.skip(p as int) =~= out@.insert(p as int, x));
            }
            assert(entries@.take(i + 1).drop_last() =~= entries@.take(i as int));
        }
        out.insert(p, x);
        i = i + 1;
    }
    assert(entries@.take(entries.len() as int) =~= entries@);
    out
}

/// The notes that match the lowercased query `q`, as (index, score) pairs in note order.
pub fn score_notes(notes: &Vec<Note>, q: &str) -> (r: Vec<(usize, i64)>)
    ensures
        r@ == scored(note_views(notes@), q@),
{
    let mut r: Vec<(usize, i64)> = Vec::new();
    let mut i: usize = 0;
    while i < notes.len()
        invariant
            i <= notes.len(),
            r@ == scored(note_views(notes@).take(i as int), q@),
        decreases notes.len() - i,
    {
        let s = score_note(&notes[i], q);
        assert(note_views(notes@).take(i + 1).drop_last() =~= note_views(notes@).take(i as int));
        assert(note_views(notes@).take(i + 1).last() == notes@[i as int]@);
        if let Some(sc) = s {
            r.push((i, sc));
        }
        i = i + 1;
    }
    assert(note_views(notes@).take(notes.len() as int) =~= note_views(notes@));
    r
}

} // verus!
