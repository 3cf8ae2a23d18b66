//! Notes and the `#tag` syntax inside their text.
use vstd::prelude::*;
use crate::text::{all_ascii, ascii_alphanumeric, ascii_lowercase, alphanumeric, chars_of, contains_string, lowercase, string_from_chars, to_lowercase, views};

verus! {

broadcast use vstd::seq_lib::group_seq_properties;

/// A character that may continue a tag: alphanumeric, `_` or `-`.
pub open spec fn is_tag_char(c: char) -> bool {
    alphanumeric(c) || c == '_' || c == '-'
}

/// The number of tag characters in the run that starts at index `i` of `s`.
pub open spec fn tag_run_len(s: Seq<char>, i: int) -> nat
    decreases s.len() - i,
{
    if 0 <= i < s.len() && is_tag_char(s[i]) {
        1 + tag_run_len(s, i + 1)
    } else {
        0
    }
}

/// Index `k` of `s` holds a `#` that is followed by at least one tag character.
pub open spec fn starts_tag(s: Seq<char>, k: int) -> bool {
    0 <= k < s.len() && s[k] == '#' && tag_run_len(s, k + 1) > 0
}

/// The tag that the `#` at index `k` introduces: the whole run of tag characters after it.
pub open spec fn tag_after(s: Seq<char>, k: int) -> Seq<char> {
    s.subrange(k + 1, k + 1 + tag_run_len(s, k + 1))
}

/// The tags introduced by the `#` signs among the first `k` characters of `s`, in order,
/// before lowercasing and removal of repeats.
pub open spec fn raw_tags_upto(s: Seq<char>, k: int) -> Seq<Seq<char>>
    decreases k,
{
    if k <= 0 {
        seq![]
    } else if starts_tag(s, k - 1) {
        raw_tags_upto(s, k - 1).push(tag_after(s, k - 1))
    } else {
        raw_tags_upto(s, k - 1)
    }
}

/// All tags written in `s`, in order, as written.
pub open spec fn raw_tags(s: Seq<char>) -> Seq<Seq<char>> {
    raw_tags_upto(s, s.len() as int)
}

/// `s` with every element that already occurred earlier removed (first occurrences kept, in order).
pub open spec fn dedup<A>(s: Seq<A>) -> Seq<A>
    decreases s.len(),
{
    if s.len() == 0 {
        s
    } else if dedup(s.drop_last()).contains(s.last()) {
        dedup(s.drop_last())
    } else {
        dedup(s.drop_last()).push(s.last())
    }
}

/// The tags of a text: each tag lowercased, repeats dropped, in order of first occurrence.
pub open spec fn tags_of(s: Seq<char>) -> Seq<Seq<char>> {
    dedup(raw_tags(s).map_values(|t: Seq<char>| lowercase(t)))
}

pub proof fn lemma_dedup_push<A>(s: Seq<A>, e: A)
    ensures
        dedup(s.push(e)) == (if dedup(s).contains(e) { dedup(s) } else { dedup(s).push(e) }),
{
    assert(s.push(e).drop_last() =~= s);
}

/// `dedup` keeps exactly the elements of `s`, and none of them twice.
pub proof fn lemma_dedup<A>(s: Seq<A>)
    ensures
        forall|x: A| dedup(s).contains(x) <==> s.contains(x),
        forall|i: int, j: int| 0 <= i < j < dedup(s).len() ==> dedup(s)[i] != dedup(s)[j],
    decreases s.len(),
{
    if s.len() > 0 {
        let t = s.drop_last();
        lemma_dedup(t);
        lemma_dedup_push(t, s.last());
        assert(t.push(s.last()) =~= s);
        assert forall|x: A| dedup(s).contains(x) <==> s.contains(x) by {
            if s.contains(x) && !t.contains(x) {
                assert(x == s.last());
            }
            if t.contains(x) {
                let k = choose|k: int| 0 <= k < t.len() && t[k] == x;
                assert(s[k] == x);
            }
        }
        if !dedup(t).contains(s.last()) {
            let d = dedup(s);
            assert forall|i: int, j: int| 0 <= i < j < d.len() implies d[i] != d[j] by {
                if j == d.len() - 1 {
                    assert(d[i] == dedup(t)[i]);
                }
            }
        }
    }
}

/// Every written tag is a non-empty run of tag characters that directly follows a `#`.
pub proof fn lemma_raw_tags_shape(s: Seq<char>, k: int)
    requires
        k <= s.len(),
    ensures
        forall|i: int| 0 <= i < raw_tags_upto(s, k).len() ==> {
            let t = #[trigger] raw_tags_upto(s, k)[i];
            &&& t.len() > 0
            &&& forall|j: int| 0 <= j < t.len() ==> is_tag_char(#[trigger] t[j])
        },
    decreases k,
{
    if k > 0 {
        lemma_raw_tags_shape(s, k - 1);
        if starts_tag(s, k - 1) {
            lemma_run_all_tag_chars(s, k);
            let t = tag_after(s, k - 1);
            assert forall|j: int| 0 <= j < t.len() implies is_tag_char(#[trigger] t[j]) by {
                assert(t[j] == s[k + j]);
            }
            let r = raw_tags_upto(s, k);
            assert forall|i: int| 0 <= i < r.len() implies {
                let u = #[trigger] r[i];
                &&& u.len() > 0
                &&& forall|j: int| 0 <= j < u.len() ==> is_tag_char(#[trigger] u[j])
            } by {
                if i < r.len() - 1 {
                    assert(r[i] == raw_tags_upto(s, k - 1)[i]);
                } else {
                    assert(r[i] == t);
                }
            }
        } else {
            assert(raw_tags_upto(s, k) == raw_tags_upto(s, k - 1));
        }
    }
}

/// The characters of a run are all tag characters.
proof fn lemma_run_all_tag_chars(s: Seq<char>, i: int)
    requires
        0 <= i,
    ensures
        forall|j: int| i <= j < i + tag_run_len(s, i) ==> is_tag_char(#[trigger] s[j]),
        i + tag_run_len(s, i) <= s.len() || tag_run_len(s, i) == 0,
    decreases s.len() - i,
{
    if 0 <= i < s.len() && is_tag_char(s[i]) {
        lemma_run_all_tag_chars(s, i + 1);
    }
}

/// A text without `#` has no tags.
pub proof fn lemma_no_hash_no_tags(s: Seq<char>)
    requires
        !s.contains('#'),
    ensures
        tags_of(s).len() == 0,
{
    assert forall|k: int| 0 <= k <= s.len() implies raw_tags_upto(s, k).len() == 0 by {
        lemma_no_hash_upto(s, k);
    }
    assert(raw_tags(s).map_values(|t: Seq<char>| lowercase(t)) =~= Seq::<Seq<char>>::empty());
}

proof fn lemma_no_hash_upto(s: Seq<char>, k: int)
    requires
        !s.contains('#'),
        k <= s.len(),
    ensures
        raw_tags_upto(s, k).len() == 0,
    decreases k,
{
    if k > 0 {
        lemma_no_hash_upto(s, k - 1);
        if starts_tag(s, k - 1) {
            assert(s.contains(s[k - 1]));
        }
    }
}

/// The tag law: the tags of a text hold no tag twice, and they are exactly the lowercased
/// forms of the tags written in it.
pub proof fn lemma_tags_of(s: Seq<char>)
    ensures
        forall|i: int, j: int| 0 <= i < j < tags_of(s).len() ==> tags_of(s)[i] != tags_of(s)[j],
        forall|x: Seq<char>| tags_of(s).contains(x) <==> raw_tags(s).map_values(
            |t: Seq<char>| lowercase(t),
        ).contains(x),
{
    lemma_dedup(raw_tags(s).map_values(|t: Seq<char>| lowercase(t)));
}

/// The tags of an all-ASCII text: as `tags_of`, with the lowercasing spelled out
/// (`A`..`Z` to `a`..`z`).
pub open spec fn ascii_tags_of(s: Seq<char>) -> Seq<Seq<char>> {
    dedup(raw_tags(s).map_values(|t: Seq<char>| ascii_lowercase(t)))
}

/// An ASCII character that continues a tag: a letter, a digit, `_` or `-`.
pub open spec fn ascii_tag_char(c: char) -> bool {
    ascii_alphanumeric(c) || c == '_' || c == '-'
}

/// The number of ASCII tag characters in the run that starts at index `i` of `s`.
pub open spec fn ascii_run_len(s: Seq<char>, i: int) -> nat
    decreases s.len() - i,
{
    if 0 <= i < s.len() && ascii_tag_char(s[i]) {
        1 + ascii_run_len(s, i + 1)
    } else {
        0
    }
}

/// The tags of an ASCII text as written, among its first `k` characters: for each `#`, the
/// letters, digits, `_` and `-` that directly follow it, when there is at least one.
pub open spec fn ascii_written_tags_upto(s: Seq<char>, k: int) -> Seq<Seq<char>>
    decreases k,
{
    if k <= 0 {
        seq![]
    } else if s[k - 1] == '#' && ascii_run_len(s, k) > 0 {
        ascii_written_tags_upto(s, k - 1).push(s.subrange(k, k + ascii_run_len(s, k)))
    } else {
        ascii_written_tags_upto(s, k - 1)
    }
}

/// The tags of an ASCII text as written.
pub open spec fn ascii_written_tags(s: Seq<char>) -> Seq<Seq<char>> {
    ascii_written_tags_upto(s, s.len() as int)
}

proof fn lemma_ascii_run_of_word(s: Seq<char>, i: int)
    requires
        1 <= i <= s.len(),
        forall|m: int| 1 <= m < s.len() ==> ascii_tag_char(#[trigger] s[m]),
    ensures
        ascii_run_len(s, i) == s.len() - i,
    decreases s.len() - i,
{
    if i < s.len() {
        lemma_ascii_run_of_word(s, i + 1);
    }
}

proof fn lemma_ascii_word_upto(s: Seq<char>, k: int)
    requires
        1 <= k <= s.len(),
        s[0] == '#',
        forall|m: int| 1 <= m < s.len() ==> ascii_tag_char(#[trigger] s[m]),
        s.len() > 1,
    ensures
        ascii_written_tags_upto(s, k) == seq![s.subrange(1, s.len() as int)],
    decreases k,
{
    if k == 1 {
        lemma_ascii_run_of_word(s, 1);
        assert(ascii_written_tags_upto(s, 0) =~= Seq::<Seq<char>>::empty());
        assert(seq![].push(s.subrange(1, s.len() as int)) =~= seq![s.subrange(1, s.len() as int)]);
    } else {
        lemma_ascii_word_upto(s, k - 1);
        assert(ascii_tag_char(s[k - 1]));
    }
}

/// The tag word law: a `#` followed by a word of ASCII letters, digits, `_` and `-` is exactly
/// one tag, that whole word in lowercase — digits included (`#v2` is the tag `v2`).
pub proof fn lemma_hash_word_is_one_tag(w: Seq<char>)
    requires
        w.len() > 0,
        forall|i: int| 0 <= i < w.len() ==> ascii_tag_char(#[trigger] w[i]),
    ensures
        dedup(ascii_written_tags(seq!['#'] + w).map_values(|t: Seq<char>| ascii_lowercase(t)))
            == seq![ascii_lowercase(w)],
{
    let s = seq!['#'] + w;
    assert forall|m: int| 1 <= m < s.len() implies ascii_tag_char(#[trigger] s[m]) by {
        assert(s[m] == w[m - 1]);
    }
    lemma_ascii_word_upto(s, s.len() as int);
    assert(s.subrange(1, s.len() as int) =~= w);
    let l = seq![w].map_values(|t: Seq<char>| ascii_lowercase(t));
    assert(l =~= seq![ascii_lowercase(w)]);
    assert(l.drop_last() =~= Seq::<Seq<char>>::empty());
    assert(dedup(l.drop_last()) =~= Seq::<Seq<char>>::empty());
    assert(dedup(l) =~= seq![ascii_lowercase(w)]);
}

proof fn lemma_run_prefix(s1: Seq<char>, s2: Seq<char>, i: int)
    requires
        0 <= i <= s1.len(),
        s1.len() > 0,
        !ascii_tag_char(s1.last()),
    ensures
        i < s1.len() ==> ascii_run_len(s1 + s2, i) == ascii_run_len(s1, i),
    decreases s1.len() - i,
{
    if i < s1.len() {
        lemma_run_prefix(s1, s2, i + 1);
        assert((s1 + s2)[i] == s1[i]);
    }
}

proof fn lemma_run_suffix(s1: Seq<char>, s2: Seq<char>, i: int)
    requires
        0 <= i <= s2.len(),
    ensures
        ascii_run_len(s1 + s2, s1.len() + i) == ascii_run_len(s2, i),
    decreases s2.len() - i,
{
    if i < s2.len() {
        lemma_run_suffix(s1, s2, i + 1);
        assert((s1 + s2)[s1.len() + i] == s2[i]);
    }
}

proof fn lemma_written_prefix(s1: Seq<char>, s2: Seq<char>, k: int)
    requires
        0 <= k <= s1.len(),
        s1.len() > 0,
        !ascii_tag_char(s1.last()),
        s1.last() != '#',
    ensures
        ascii_written_tags_upto(s1 + s2, k) == ascii_written_tags_upto(s1, k),
    decreases k,
{
    if k > 0 {
        lemma_written_prefix(s1, s2, k - 1);
        let s = s1 + s2;
        assert(s[k - 1] == s1[k - 1]);
        if k < s1.len() {
            lemma_run_prefix(s1, s2, k);
            if s1[k - 1] == '#' && ascii_run_len(s1, k) > 0 {
                assert(s.subrange(k, k + ascii_run_len(s, k)) =~= s1.subrange(k, k + ascii_run_len(s1, k)))
                    by {
                    lemma_run_in_bounds(s1, k);
                }
            }
        }
    }
}

proof fn lemma_run_in_bounds(s: Seq<char>, i: int)
    requires
        0 <= i,
    ensures
        i + ascii_run_len(s, i) <= s.len() || ascii_run_len(s, i) == 0,
    decreases s.len() - i,
{
    if 0 <= i < s.len() && ascii_tag_char(s[i]) {
        lemma_run_in_bounds(s, i + 1);
    }
}

proof fn lemma_written_suffix(s1: Seq<char>, s2: Seq<char>, k: int)
    requires
        0 <= k <= s2.len(),
        s1.len() > 0,
        !ascii_tag_char(s1.last()),
        s1.last() != '#',
    ensures
        ascii_written_tags_upto(s1 + s2, s1.len() + k) == ascii_written_tags(s1)
            + ascii_written_tags_upto(s2, k),
    decreases k,
{
    let s = s1 + s2;
    if k == 0 {
        lemma_written_prefix(s1, s2, s1.len() as int);
        assert(ascii_written_tags_upto(s2, 0) =~= Seq::<Seq<char>>::empty());
        assert(ascii_written_tags(s1) + Seq::<Seq<char>>::empty() =~= ascii_written_tags(s1));
    } else {
        lemma_written_suffix(s1, s2, k - 1);
        let p = s1.len() + k;
        assert(s[p - 1] == s2[k - 1]);
        lemma_run_suffix(s1, s2, k);
        if s2[k - 1] == '#' && ascii_run_len(s2, k) > 0 {
            lemma_run_in_bounds(s2, k);
            assert(s.subrange(p, p + ascii_run_len(s, p)) =~= s2.subrange(k, k + ascii_run_len(s2, k)));
            assert(ascii_written_tags(s1) + ascii_written_tags_upto(s2, k - 1).push(
                s2.subrange(k, k + ascii_run_len(s2, k)),
            ) =~= (ascii_written_tags(s1) + ascii_written_tags_upto(s2, k - 1)).push(
                s2.subrange(k, k + ascii_run_len(s2, k)),
            ));
        }
    }
}

/// The tag order law: when one text ends with a character that neither continues nor starts a
/// tag (a space, say), the tags written in it followed by another text are its own tags
/// followed by the other text's, in that order.
pub proof fn lemma_written_tags_concat(s1: Seq<char>, s2: Seq<char>)
    requires
        s1.len() > 0,
        !ascii_tag_char(s1.last()),
        s1.last() != '#',
    ensures
        ascii_written_tags(s1 + s2) == ascii_written_tags(s1) + ascii_written_tags(s2),
{
    lemma_written_suffix(s1, s2, s2.len() as int);
}

/// Extracts the tags of a text: the runs of alphanumeric, `_` and `-` characters that follow
/// a `#`, lowercased, each kept once, in order of first occurrence.
pub fn extract_tags(text: &str) -> (tags: Vec<String>)
    ensures
        views(tags@) == tags_of(text@),
        all_ascii(text@) ==> views(tags@) == ascii_tags_of(text@),
        all_ascii(text@) ==> views(tags@) == dedup(
            ascii_written_tags(text@).map_values(|t: Seq<char>| ascii_lowercase(t)),
        ),
{
    let chars = chars_of(text);
    let n = chars.len();
    let mut tags: Vec<String> = Vec::new();
    let mut k: usize = 0;
    while k < n
        invariant
            k <= n == chars@.len(),
            chars@ == text@,
            views(tags@) == dedup(raw_tags_upto(text@, k as int).map_values(|t: Seq<char>| lowercase(t))),
            all_ascii(text@) ==> views(tags@) == dedup(raw_tags_upto(text@, k as int).map_values(|t: Seq<char>| ascii_lowercase(t))),
            all_ascii(text@) ==> raw_tags_upto(text@, k as int) == ascii_written_tags_upto(text@, k as int),
        decreases n - k,
    {
        let ghost s = text@;
        if chars[k] == '#' {
            let mut j: usize = k + 1;
            while j < n && (chars[j].is_alphanumeric() || chars[j] == '_' || chars[j] == '-')
                invariant
                    k < j <= n == chars@.len(),
                    chars@ == s,
                    tag_run_len(s, k + 1) == (j - (k + 1)) + tag_run_len(s, j as int),
                    all_ascii(s) ==> ascii_run_len(s, k + 1) == (j - (k + 1)) + ascii_run_len(s, j as int),
                decreases n - j,
            {
                proof {
                    if all_ascii(s) {
                        assert((s[j as int] as u32) < 128);
                    }
                }
                j = j + 1;
            }
            proof {
                if all_ascii(s) && j < n {
                    assert((s[j as int] as u32) < 128);
                    assert(!ascii_tag_char(s[j as int]));
                }
            }
            if j > k + 1 {
                let tag = string_from_chars(&chars, k + 1, j);
                let lower = to_lowercase(tag.as_str());
                proof {
                    let r = raw_tags_upto(s, k as int);
                    assert(starts_tag(s, k as int));
                    assert(tag@ == tag_after(s, k as int));
                    assert(r.push(tag@).map_values(|t: Seq<char>| lowercase(t))
                        =~= r.map_values(|t: Seq<char>| lowercase(t)).push(lowercase(tag@)));
                    lemma_dedup_push(r.map_values(|t: Seq<char>| lowercase(t)), lower@);
                    if all_ascii(s) {
                        assert forall|i: int| 0 <= i < tag@.len() implies (#[trigger] tag@[i] as u32) < 128 by {
                            assert(tag@[i] == s[k + 1 + i]);
                        }
                        assert(lower@ == ascii_lowercase(tag@));
                        assert(r.push(tag@).map_values(|t: Seq<char>| ascii_lowercase(t))
                            =~= r.map_values(|t: Seq<char>| ascii_lowercase(t)).push(ascii_lowercase(tag@)));
                        lemma_dedup_push(r.map_values(|t: Seq<char>| ascii_lowercase(t)), lower@);
                    }
                }
                if !contains_string(&tags, &lower) {
                    let ghost before = tags@;
                    tags.push(lower);
                    assert(views(tags@) =~= views(before).push(lower@));
                }
            }
        }
        k = k + 1;
    }
    assert(raw_tags_upto(text@, n as int) == raw_tags(text@));
    tags
}

/// A character of the Crockford base32 alphabet that ULIDs are written in.
pub open spec fn crockford_digit(c: char) -> bool {
    ('0' <= c && c <= '9') || ('A' <= c && c <= 'Z' && c != 'I' && c != 'L' && c != 'O' && c != 'U')
}

/// `ulid::Ulid::new` followed by `Ulid::to_string`: a fresh ULID, made from the clock and a
/// random source, as its 26-character Crockford base32 text. Which ULID comes out is not
/// stated: it depends on the time and on chance.
#[verifier::external_body]
fn new_note_id() -> (id: String)
    ensures
        id@.len() == 26,
        forall|i: int| 0 <= i < 26 ==> crockford_digit(#[trigger] id@[i]),
{
    ulid::Ulid::new().to_string()
}

/// A point in time (UTC) at full precision: whole seconds since the Unix epoch, and the
/// nanoseconds past that second.
#[derive(Debug, Clone, Copy, PartialEq, Eq, Structural)]
pub struct Timestamp {
    pub secs: i64,
    pub nanos: u32,
}

/// The system clock, `std::time::SystemTime::now()`, turned into a `chrono::DateTime<Utc>` by
/// chrono's `From<SystemTime>` (which handles times before the epoch as well), then read with
/// `timestamp` and `timestamp_subsec_nanos`. Which time comes out is the clock's; the one
/// thing stated is that the nanoseconds stay below a second, as chrono builds the value from a
/// sub-second count.
#[verifier::external_body]
fn now_timestamp() -> (t: Timestamp)
    ensures
        t.nanos < 1_000_000_000,
{
    let now = chrono::DateTime::<chrono::Utc>::from(std::time::SystemTime::now());
    Timestamp { secs: now.timestamp(), nanos: now.timestamp_subsec_nanos() }
}

/// A single note.
#[derive(Debug, PartialEq)]
pub struct Note {
    /// Unique identifier (a ULID).
    pub id: String,
    /// The text as typed.
    pub text: String,
    /// The tags found in the text.
    pub tags: Vec<String>,
    /// The scope the note belongs to.
    pub scope: String,
    /// Creation time.
    pub created_at: Timestamp,
    /// Whether the note is marked as done.
    pub done: bool,
}

/// A note as plain values.
pub struct NoteView {
    pub id: Seq<char>,
    pub text: Seq<char>,
    pub tags: Seq<Seq<char>>,
    pub scope: Seq<char>,
    pub created_at: Timestamp,
    pub done: bool,
}

impl View for Note {
    type V = NoteView;

    open spec fn view(&self) -> NoteView {
        NoteView {
            id: self.id@,
            text: self.text@,
            tags: views(self.tags@),
            scope: self.scope@,
            created_at: self.created_at,
            done: self.done,
        }
    }
}

/// The views of a sequence of notes.
pub open spec fn note_views(v: Seq<Note>) -> Seq<NoteView> {
    v.map_values(|n: Note| n@)
}

impl Clone for Note {
    fn clone(&self) -> (r: Self)
        ensures
            r@ == self@,
    {
        let tags = self.tags.clone();
        assert(views(tags@) =~= views(self.tags@)) by {
            assert forall|i: int| 0 <= i < tags@.len() implies tags@[i]@ == self.tags@[i]@ by {
                assert(cloned::<String>(self.tags@[i], tags@[i]));
            }
        }
        Note {
            id: self.id.clone(),
            text: self.text.clone(),
            tags,
            scope: self.scope.clone(),
            created_at: self.created_at,
            done: self.done,
        }
    }
}

impl Note {
    /// A new note in `scope`, not done, with a fresh id, the current time, and the tags of `text`.
    pub fn new(text: String, scope: String) -> (note: Note)
        ensures
            note.text@ == text@,
            note.scope@ == scope@,
            note@.tags == tags_of(text@),
            !note.done,
            note.id@.len() == 26,
            forall|i: int| 0 <= i < 26 ==> crockford_digit(#[trigger] note.id@[i]),
            note.created_at.nanos < 1_000_000_000,
    {
        let tags = extract_tags(text.as_str());
        Note { id: new_note_id(), text, tags, scope, created_at: now_timestamp(), done: false }
    }

    /// Flips the done state; flipping twice restores it.
    pub fn toggle_done(&mut self)
        ensures
            final(self)@ == (NoteView { done: !old(self).done, ..old(self)@ }),
    {
        self.done = !self.done;
    }
}

} // verus!
