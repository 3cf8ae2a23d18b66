//! What the screen shows, as values: titles, counts, key hints and due-date highlighting.
use vstd::prelude::*;
use chrono::Datelike;
use crate::app::{App, AppView, Mode};
use crate::model::NoteView;
use crate::text::{chars_of, string_from_chars};

verus! {

/// What `chrono::NaiveDate::parse_from_str(s, "%Y-%m-%d")` gives, read as
/// `num_days_from_ce` (days since 1 January of year 1, that day being 1); `None` when `s` is
/// not such a date.
pub uninterp spec fn iso_date_day_number(s: Seq<char>) -> Option<i32>;

/// `chrono::NaiveDate::parse_from_str(s, "%Y-%m-%d")`, the parsed date read with
/// `Datelike::num_days_from_ce`. The result is named by `iso_date_day_number`.
#[verifier::external_body]
fn parse_iso_day(s: &str) -> (r: Option<i32>)
    ensures
        r == iso_date_day_number(s@),
{
    chrono::NaiveDate::parse_from_str(s, "%Y-%m-%d").ok().map(|d| d.num_days_from_ce())
}

/// How a tag is highlighted.
#[derive(Debug, Clone, Copy, PartialEq, Eq, Structural)]
pub enum DueStatus {
    /// A due date before today.
    Overdue,
    /// A due date that is today.
    DueToday,
    /// Not a due date, or one still to come.
    Plain,
}

/// The highlight of a due date given as a day number, against today's day number.
pub open spec fn due_status_spec(day: Option<i32>, today: i32) -> DueStatus {
    match day {
        Some(d) => if d < today {
            DueStatus::Overdue
        } else if d == today {
            DueStatus::DueToday
        } else {
            DueStatus::Plain
        },
        None => DueStatus::Plain,
    }
}

/// The prefix that marks a due-date tag.
pub open spec fn due_prefix() -> Seq<char> {
    seq!['d', 'u', 'e', ':']
}

/// The highlight of a tag: a tag `due:YYYY-MM-DD` is overdue before today and due today on
/// today; every other tag is plain.
pub open spec fn tag_due_status_spec(tag: Seq<char>, today: i32) -> DueStatus {
    if tag.len() >= 4 && tag.take(4) == due_prefix() {
        due_status_spec(iso_date_day_number(tag.skip(4)), today)
    } else {
        DueStatus::Plain
    }
}

/// Classifies a parsed due date (a day number, if the tag held a date) against today.
pub fn due_status(day: Option<i32>, today: i32) -> (r: DueStatus)
    ensures
        r == due_status_spec(day, today),
{
    match day {
        Some(d) => if d < today {
            DueStatus::Overdue
        } else if d == today {
            DueStatus::DueToday
        } else {
            DueStatus::Plain
        },
        None => DueStatus::Plain,
    }
}

/// The highlight of a tag, `today` being today's day number since the common era.
pub fn tag_due_status(tag: &str, today: i32) -> (r: DueStatus)
    ensures
        r == tag_due_status_spec(tag@, today),
{
    let chars = chars_of(tag);
    if chars.len() >= 4 && chars[0] == 'd' && chars[1] == 'u' && chars[2] == 'e' && chars[3] == ':' {
        assert(tag@.take(4) =~= due_prefix());
        let rest = string_from_chars(&chars, 4, chars.len());
        assert(rest@ =~= tag@.skip(4));
        due_status(parse_iso_day(rest.as_str()), today)
    } else {
        proof {
            if tag@.len() >= 4 && tag@.take(4) == due_prefix() {
                assert(tag@.take(4)[0] == 'd' && tag@.take(4)[1] == 'u');
                assert(tag@.take(4)[2] == 'e' && tag@.take(4)[3] == ':');
            }
        }
        DueStatus::Plain
    }
}

/// The status box of a note: `[x]` when done, `[ ]` otherwise.
pub fn status_marker(done: bool) -> (r: &'static str)
    ensures
        r@ == (if done { "[x]"@ } else { "[ ]"@ }),
{
    if done { "[x]" } else { "[ ]" }
}

/// The start of a list row: `*` for a marked note (else a space), the status box, a space.
pub open spec fn prefix_text(marked: bool, done: bool) -> Seq<char> {
    (if marked { "*"@ } else { " "@ }) + (if done { "[x]"@ } else { "[ ]"@ }) + " "@
}

/// The scope shown after a note's text: ` (scope)` in the global view, nothing otherwise.
pub open spec fn scope_label_text(show_global: bool, scope: Seq<char>) -> Seq<char> {
    if show_global { " ("@ + scope + ")"@ } else { Seq::<char>::empty() }
}

/// How a tag is shown in a list row: `#`, the tag, a space.
pub open spec fn tag_label_text(tag: Seq<char>) -> Seq<char> {
    "#"@ + tag + " "@
}

/// The start of a list row: `*` for a marked note (else a space), the status box, a space.
pub fn note_prefix(marked: bool, done: bool) -> (r: String)
    ensures
        r@ == prefix_text(marked, done),
{
    broadcast use vstd::string::group_string_axioms;
    let mut r = if marked { "*".to_string() } else { " ".to_string() };
    r.append(status_marker(done));
    r.append(" ");
    r
}

/// The scope shown after a note's text: ` (scope)` in the global view, nothing otherwise.
pub fn scope_label(show_global: bool, scope: &str) -> (r: String)
    ensures
        r@ == scope_label_text(show_global, scope@),
{
    broadcast use vstd::string::group_string_axioms;
    if show_global {
        let mut r = " (".to_string();
        r.append(scope);
        r.append(")");
        r
    } else {
        String::new()
    }
}

/// How a tag is shown in a list row: `#`, the tag, a space.
pub fn tag_label(tag: &str) -> (r: String)
    ensures
        r@ == tag_label_text(tag@),
{
    broadcast use vstd::string::group_string_axioms;
    let mut r = "#".to_string();
    r.append(tag);
    r.append(" ");
    r
}

/// The percentages that center a box of `percent` of the space: an equal margin before and
/// after it.
pub fn centered_percentages(percent: u16) -> (r: (u16, u16, u16))
    requires
        percent <= 100,
    ensures
        r.0 == (100 - percent) / 2,
        r.1 == percent,
        r.2 == (100 - percent) / 2,
{
    let margin = (100 - percent) / 2;
    (margin, percent, margin)
}

/// The key bindings shown in the footer for a mode.
pub open spec fn key_hints_spec(mode: Mode) -> Seq<char> {
    match mode {
        Mode::Normal => "q/Esc: Quit | j/k: Nav | a: Add | e: Edit | v: Select | space: Toggle | x: Del | /: Search | g: Global"@,
        Mode::Adding | Mode::Editing => "Enter: Save | Esc: Cancel"@,
        Mode::Searching => "Enter: Filter | Esc: Clear"@,
        Mode::ConfirmDelete => "y/Enter: Confirm | n/Esc: Cancel"@,
    }
}

/// The key bindings shown in the footer for a mode.
pub fn key_hints(mode: Mode) -> (r: &'static str)
    ensures
        r@ == key_hints_spec(mode),
{
    match mode {
        Mode::Normal => "q/Esc: Quit | j/k: Nav | a: Add | e: Edit | v: Select | space: Toggle | x: Del | /: Search | g: Global",
        Mode::Adding | Mode::Editing => "Enter: Save | Esc: Cancel",
        Mode::Searching => "Enter: Filter | Esc: Clear",
        Mode::ConfirmDelete => "y/Enter: Confirm | n/Esc: Cancel",
    }
}

/// The number of notes among the visible ones (given by index) that are not done.
pub open spec fn open_count(notes: Seq<NoteView>, visible: Seq<usize>) -> nat {
    visible.filter(|i: usize| !notes[i as int].done).len()
}

impl App {
    /// The header title: `ALL SCOPES` in the global view, else `Scope: ` and the scope.
    pub fn header_title(&self) -> (r: String)
        ensures
            r@ == (if self.show_global { "ALL SCOPES"@ } else { "Scope: "@ + self.scope@ }),
    {
        broadcast use vstd::string::group_string_axioms;
        if self.show_global {
            "ALL SCOPES".to_string()
        } else {
            let mut t = "Scope: ".to_string();
            t.append(self.scope.as_str());
            t
        }
    }

    /// The footer counts: how many notes are visible, and how many of those are not done.
    pub fn visible_counts(&self) -> (r: (usize, usize))
        ensures
            r.0 == self@.visible().len(),
            r.1 == open_count(self@.notes, self@.visible()),
    {
        let idx = self.visible_indices();
        let n = self.notes.len();
        proof {
            assert(self@.notes.len() == n);
            crate::search::lemma_visible_in_bounds(self@.notes, self@.query);
        }
        let ghost notes = self@.notes;
        let ghost pred = |i: usize| !notes[i as int].done;
        let mut open: usize = 0;
        let mut i: usize = 0;
        while i < idx.len()
            invariant
                i <= idx.len(),
                idx@ == self@.visible(),
                notes == self@.notes,
                notes.len() == self.notes@.len(),
                forall|k: int| 0 <= k < idx.len() ==> idx@[k] < self.notes@.len(),
                pred == (|i: usize| !notes[i as int].done),
                open == idx@.take(i as int).filter(pred).len(),
                open <= i,
            decreases idx.len() - i,
        {
            proof {
                assert(idx@.take(i + 1) =~= idx@.take(i as int).push(idx@[i as int]));
                idx@.take(i as int).lemma_filter_push(idx@[i as int], pred);
                assert(notes[idx@[i as int] as int] == self.notes@[idx@[i as int] as int]@);
            }
            if !self.notes[idx[i]].done {
                open = open + 1;
            }
            i = i + 1;
        }
        assert(idx@.take(idx.len() as int) =~= idx@);
        (idx.len(), open)
    }
}

/// One row of the note list, as the screen shows it.
pub struct ListRow {
    /// `*` or a space, the status box, a space.
    pub prefix: String,
    /// The note is marked: its prefix is highlighted.
    pub marked: bool,
    /// The note is done: its text is dimmed.
    pub done: bool,
    /// The note's text.
    pub text: String,
    /// The scope label (empty outside the global view).
    pub scope_label: String,
    /// Each tag's label and highlight, in the note's tag order.
    pub tags: Vec<(String, DueStatus)>,
    /// The row is at the selected position.
    pub selected: bool,
}

/// `row` shows the `i`-th visible note of `a`, `today` being today's day number.
pub open spec fn row_shows(a: AppView, today: i32, i: int, row: ListRow) -> bool {
    let n = a.notes[a.visible()[i] as int];
    let marked = a.marked.contains(n.id);
    &&& row.prefix@ == prefix_text(marked, n.done)
    &&& row.marked == marked
    &&& row.done == n.done
    &&& row.text@ == n.text
    &&& row.scope_label@ == scope_label_text(a.show_global, n.scope)
    &&& row.tags@.len() == n.tags.len()
    &&& forall|j: int| 0 <= j < n.tags.len() ==> {
        &&& (#[trigger] row.tags@[j]).0@ == tag_label_text(n.tags[j])
        &&& row.tags@[j].1 == tag_due_status_spec(n.tags[j], today)
    }
    &&& row.selected == (i == a.selected)
}

impl App {
    /// The rows of the note list, one per visible note in display order, `today` being
    /// today's day number since the common era.
    pub fn list_rows(&self, today: i32) -> (rows: Vec<ListRow>)
        ensures
            rows.len() == self@.visible().len(),
            forall|i: int| 0 <= i < rows.len() ==> row_shows(self@, today, i, #[trigger] rows@[i]),
    {
        let idx = self.visible_indices();
        let n = self.notes.len();
        proof {
            assert(self@.notes.len() == n);
            crate::search::lemma_visible_in_bounds(self@.notes, self@.query);
        }
        let mut rows: Vec<ListRow> = Vec::new();
        let mut i: usize = 0;
        while i < idx.len()
            invariant
                i <= idx.len(),
                idx@ == self@.visible(),
                self@.notes.len() == self.notes@.len(),
                forall|k: int| 0 <= k < idx.len() ==> idx@[k] < self.notes@.len(),
                rows.len() == i,
                forall|k: int| 0 <= k < i ==> row_shows(self@, today, k, #[trigger] rows@[k]),
            decreases idx.len() - i,
        {
            let note = &self.notes[idx[i]];
            assert(self@.notes[idx@[i as int] as int] == note@);
            let marked = self.is_marked(&note.id);
            let mut tags: Vec<(String, DueStatus)> = Vec::new();
            let mut j: usize = 0;
            while j < note.tags.len()
                invariant
                    j <= note.tags.len(),
                    tags.len() == j,
                    forall|m: int| 0 <= m < j ==> {
                        &&& (#[trigger] tags@[m]).0@ == tag_label_text(note@.tags[m])
                        &&& tags@[m].1 == tag_due_status_spec(note@.tags[m], today)
                    },
                decreases note.tags.len() - j,
            {
                let t = &note.tags[j];
                tags.push((tag_label(t.as_str()), tag_due_status(t.as_str(), today)));
                j = j + 1;
            }
            let row = ListRow {
                prefix: note_prefix(marked, note.done),
                marked,
                done: note.done,
                text: note.text.clone(),
                scope_label: scope_label(self.show_global, note.scope.as_str()),
                tags,
                selected: i == self.selected,
            };
            rows.push(row);
            i = i + 1;
        }
        rows
    }
}

} // verus!
