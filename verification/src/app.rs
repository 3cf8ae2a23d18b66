//! Application state and the operations the key bindings trigger.
use vstd::prelude::*;
use crate::model::{Note, NoteView, extract_tags, note_views, tags_of};
use crate::search::{lemma_visible_in_bounds, scored, score_notes, sort_entries_by_score, visible_order};
use crate::text::{contains_string, lowercase, to_lowercase, trim_text, trimmed, views};

verus! {

broadcast use vstd::seq_lib::group_seq_properties;

/// The input mode of the interface.
#[derive(Debug, Clone, Copy, PartialEq, Eq, Structural)]
pub enum Mode {
    Normal,
    Adding,
    Editing,
    Searching,
    ConfirmDelete,
}

/// The whole application state: notes and interface context.
pub struct App {
    /// The notes currently loaded.
    pub notes: Vec<Note>,
    /// The active scope.
    pub scope: String,
    /// The selected position in the visible list.
    pub selected: usize,
    /// The current input mode.
    pub mode: Mode,
    /// What is typed for a new or edited note.
    pub input_buffer: String,
    /// The search query.
    pub search_query: String,
    /// Ids of the notes marked for bulk actions (as a set: order and repeats do not matter).
    pub multi_selected: Vec<String>,
    /// Whether all scopes are shown.
    pub show_global: bool,
    /// Whether the application should terminate.
    pub should_quit: bool,
}

/// The application state as plain values.
pub struct AppView {
    pub notes: Seq<NoteView>,
    pub scope: Seq<char>,
    pub selected: usize,
    pub mode: Mode,
    pub input: Seq<char>,
    pub query: Seq<char>,
    pub marked: Set<Seq<char>>,
    pub show_global: bool,
    pub should_quit: bool,
}

impl View for App {
    type V = AppView;

    open spec fn view(&self) -> AppView {
        AppView {
            notes: note_views(self.notes@),
            scope: self.scope@,
            selected: self.selected,
            mode: self.mode,
            input: self.input_buffer@,
            query: self.search_query@,
            marked: views(self.multi_selected@).to_set(),
            show_global: self.show_global,
            should_quit: self.should_quit,
        }
    }
}

/// The selection moved into `0..count`: 0 for an empty list, the last position when past it.
pub open spec fn clamp_index(selected: usize, count: nat) -> usize {
    if count == 0 {
        0
    } else if selected >= count {
        (count - 1) as usize
    } else {
        selected
    }
}

/// `n` with its done state flipped.
pub open spec fn toggled(n: NoteView) -> NoteView {
    NoteView { done: !n.done, ..n }
}

/// The position of the first note at or after `i` whose id is `id`; the length if none.
pub open spec fn id_pos_from(notes: Seq<NoteView>, id: Seq<char>, i: int) -> int
    decreases notes.len() - i,
{
    if i < 0 || i >= notes.len() {
        notes.len() as int
    } else if notes[i].id == id {
        i
    } else {
        id_pos_from(notes, id, i + 1)
    }
}

/// The position of the first note whose id is `id`; the length if none.
pub open spec fn first_with_id(notes: Seq<NoteView>, id: Seq<char>) -> int {
    id_pos_from(notes, id, 0)
}

/// The notes whose id is not in `ids`, in order.
pub open spec fn without_ids(notes: Seq<NoteView>, ids: Set<Seq<char>>) -> Seq<NoteView> {
    notes.filter(|n: NoteView| !ids.contains(n.id))
}

/// A note that carries `id` is found at or before it.
pub proof fn lemma_id_pos(notes: Seq<NoteView>, id: Seq<char>, i: int, k: int)
    requires
        0 <= i <= k < notes.len(),
        notes[k].id == id,
    ensures
        i <= id_pos_from(notes, id, i) <= k,
        notes[id_pos_from(notes, id, i)].id == id,
    decreases k - i,
{
    if notes[i].id != id {
        lemma_id_pos(notes, id, i + 1, k);
    }
}

impl AppView {
    /// Indices of the notes shown, in display order.
    pub open spec fn visible(self) -> Seq<usize> {
        visible_order(self.notes, self.query)
    }

    /// The same state with the selection clamped to the visible list.
    pub open spec fn clamped(self) -> AppView {
        AppView { selected: clamp_index(self.selected, self.visible().len()), ..self }
    }

    /// The index of the note under the cursor, if the cursor is on a visible note.
    pub open spec fn cursor(self) -> Option<int> {
        if self.selected < self.visible().len() {
            Some(self.visible()[self.selected as int] as int)
        } else {
            None
        }
    }

    /// Some note is marked for bulk actions.
    pub open spec fn has_marks(self) -> bool {
        self.marked != Set::<Seq<char>>::empty()
    }

    pub open spec fn after_start_add(self) -> AppView {
        AppView { mode: Mode::Adding, input: Seq::empty(), ..self }
    }

    /// Leaving an input dialog: the typed text is dropped and the mode is normal again.
    pub open spec fn after_cancel_input(self) -> AppView {
        AppView { mode: Mode::Normal, input: Seq::empty(), ..self }
    }

    /// `n` is a note that confirming the typed text may create: its text is the trimmed input,
    /// its tags those of that text, in the current scope, not done, with a 26-character id.
    pub open spec fn fresh_note(self, n: NoteView) -> bool {
        &&& n.text == trimmed(self.input)
        &&& n.tags == tags_of(n.text)
        &&& n.scope == self.scope
        &&& !n.done
        &&& n.id.len() == 26
    }

    /// The state after the note `n` is added from the input.
    pub open spec fn after_add(self, n: NoteView) -> AppView {
        AppView { notes: self.notes.push(n), input: Seq::empty(), mode: Mode::Normal, ..self }.clamped()
    }

    pub open spec fn after_start_edit(self) -> AppView {
        match self.cursor() {
            Some(k) => AppView { input: self.notes[k].text, mode: Mode::Editing, ..self },
            None => self,
        }
    }

    /// The edit that confirming the input makes: the position of the first note with the
    /// cursor note's id, and that note with the trimmed input as text and its tags; `None`
    /// when the trimmed input is empty or no note is under the cursor.
    pub open spec fn edit(self) -> Option<(int, NoteView)> {
        let t = trimmed(self.input);
        if t.len() == 0 {
            None
        } else {
            match self.cursor() {
                Some(k) => {
                    let j = first_with_id(self.notes, self.notes[k].id);
                    Some((j, NoteView { text: t, tags: tags_of(t), ..self.notes[j] }))
                },
                None => None,
            }
        }
    }

    pub open spec fn after_confirm_edit(self) -> AppView {
        match self.edit() {
            Some(e) => AppView {
                notes: self.notes.update(e.0, e.1),
                input: Seq::empty(),
                mode: Mode::Normal,
                ..self
            }.clamped(),
            None => self,
        }
    }

    /// With marks: every marked note flips its done state and the marks are cleared.
    /// Without: the first note with the cursor note's id flips.
    pub open spec fn after_toggle_done(self) -> AppView {
        if self.has_marks() {
            AppView {
                notes: self.notes.map_values(
                    |n: NoteView| if self.marked.contains(n.id) { toggled(n) } else { n },
                ),
                marked: Set::empty(),
                ..self
            }
        } else {
            match self.cursor() {
                Some(k) => {
                    let j = first_with_id(self.notes, self.notes[k].id);
                    AppView { notes: self.notes.update(j, toggled(self.notes[j])), ..self }
                },
                None => self,
            }
        }
    }

    /// The cursor note's id enters the marks, or leaves them if it was there.
    pub open spec fn after_toggle_mark(self) -> AppView {
        match self.cursor() {
            Some(k) => {
                let id = self.notes[k].id;
                AppView {
                    marked: if self.marked.contains(id) {
                        self.marked.remove(id)
                    } else {
                        self.marked.insert(id)
                    },
                    ..self
                }
            },
            None => self,
        }
    }

    pub open spec fn after_start_delete(self) -> AppView {
        match self.cursor() {
            Some(k) => AppView { mode: Mode::ConfirmDelete, ..self },
            None => self,
        }
    }

    /// What confirming a deletion reports: `bulk` for the marked notes, else the cursor
    /// note's id; `None` outside the confirmation or with no note under the cursor.
    pub open spec fn deletion(self) -> Option<Seq<char>> {
        if self.mode != Mode::ConfirmDelete {
            None
        } else if self.has_marks() {
            Some("bulk"@)
        } else {
            match self.cursor() {
                Some(k) => Some(self.notes[k].id),
                None => None,
            }
        }
    }

    pub open spec fn after_confirm_delete(self) -> AppView {
        if self.mode != Mode::ConfirmDelete {
            self
        } else if self.has_marks() {
            AppView {
                notes: without_ids(self.notes, self.marked),
                marked: Set::empty(),
                mode: Mode::Normal,
                ..self
            }.clamped()
        } else {
            match self.cursor() {
                Some(k) => AppView {
                    notes: without_ids(self.notes, Set::empty().insert(self.notes[k].id)),
                    mode: Mode::Normal,
                    ..self
                }.clamped(),
                None => AppView { mode: Mode::Normal, ..self },
            }
        }
    }

    pub open spec fn with_mode(self, mode: Mode) -> AppView {
        AppView { mode, ..self }
    }

    pub open spec fn after_clear_search(self) -> AppView {
        AppView { query: Seq::empty(), mode: Mode::Normal, ..self }.clamped()
    }

    pub open spec fn after_toggle_global(self) -> AppView {
        AppView { show_global: !self.show_global, ..self }.clamped()
    }

    pub open spec fn after_move_down(self) -> AppView {
        let count = self.visible().len();
        if count > 0 && self.selected < count - 1 {
            AppView { selected: (self.selected + 1) as usize, ..self }
        } else {
            self
        }
    }

    pub open spec fn after_move_up(self) -> AppView {
        if self.selected > 0 {
            AppView { selected: (self.selected - 1) as usize, ..self }
        } else {
            self
        }
    }
}

impl App {
    /// A new state for `scope` holding `notes`: nothing selected or typed, normal mode.
    pub fn new(scope: String, notes: Vec<Note>) -> (app: App)
        ensures
            app@ == (AppView {
                notes: note_views(notes@),
                scope: scope@,
                selected: 0,
                mode: Mode::Normal,
                input: Seq::empty(),
                query: Seq::empty(),
                marked: Set::empty(),
                show_global: false,
                should_quit: false,
            }),
    {
        let app = App {
            notes,
            scope,
            selected: 0,
            mode: Mode::Normal,
            input_buffer: String::new(),
            search_query: String::new(),
            multi_selected: Vec::new(),
            show_global: false,
            should_quit: false,
        };
        assert(views(app.multi_selected@).to_set() =~= Set::empty());
        app
    }

    /// Indices of the notes that match the search query, in display order.
    pub fn visible_indices(&self) -> (r: Vec<usize>)
        ensures
            r@ == self@.visible(),
    {
        let trimmed = trim_text(self.search_query.as_str());
        let mut r: Vec<usize> = Vec::new();
        if trimmed.as_str().is_empty() {
            let mut i: usize = 0;
            while i < self.notes.len()
                invariant
                    i <= self.notes.len(),
                    r@ == Seq::new(i as nat, |k: int| k as usize),
                decreases self.notes.len() - i,
            {
                r.push(i);
                i = i + 1;
            }
            assert(r@ =~= self@.visible());
        } else {
            let query = to_lowercase(self.search_query.as_str());
            let scores = score_notes(&self.notes, query.as_str());
            let sorted = sort_entries_by_score(&scores);
            let mut i: usize = 0;
            while i < sorted.len()
                invariant
                    i <= sorted.len(),
                    r@ == sorted@.take(i as int).map_values(|e: (usize, i64)| e.0),
                decreases sorted.len() - i,
            {
                r.push(sorted[i].0);
                assert(sorted@.take(i + 1) =~= sorted@.take(i as int).push(sorted@[i as int]));
                i = i + 1;
            }
            assert(sorted@.take(sorted.len() as int) =~= sorted@);
        }
        r
    }

    /// The notes that match the search query, in display order: all notes when the query is
    /// blank; otherwise the notes whose lowercased tags or text fuzzy-match the lowercased
    /// query, best score first (a tag match scores 100), ties in note order.
    pub fn visible_notes(&self) -> (r: Vec<&Note>)
        ensures
            r.len() == self@.visible().len(),
            forall|i: int| 0 <= i < r.len() ==> *r@[i] == self.notes@[self@.visible()[i] as int],
    {
        let idx = self.visible_indices();
        let n = self.notes.len();
        proof {
            assert(self@.notes.len() == n);
            lemma_visible_in_bounds(self@.notes, self@.query);
        }
        let mut r: Vec<&Note> = Vec::new();
        let mut i: usize = 0;
        while i < idx.len()
            invariant
                i <= idx.len(),
                idx@ == self@.visible(),
                self@.notes.len() == self.notes@.len(),
                forall|k: int| 0 <= k < idx.len() ==> idx@[k] < self.notes@.len(),
                r.len() == i,
                forall|k: int| 0 <= k < i ==> *r@[k] == self.notes@[idx@[k] as int],
            decreases idx.len() - i,
        {
            r.push(&self.notes[idx[i]]);
            i = i + 1;
        }
        r
    }

    /// Moves the selection into the visible list: 0 when it is empty, its last position when
    /// the selection is past it.
    pub fn clamp_selection(&mut self)
        ensures
            final(self)@ == old(self)@.clamped(),
    {
        let count = self.visible_indices().len();
        if count == 0 {
            self.selected = 0;
        } else if self.selected >= count {
            self.selected = count - 1;
        }
    }

    /// Moves the selection down by one, stopping at the last visible note.
    pub fn move_selection_down(&mut self)
        ensures
            final(self)@ == old(self)@.after_move_down(),
    {
        let count = self.visible_indices().len();
        if count > 0 && self.selected < count - 1 {
            self.selected = self.selected + 1;
        }
    }

    /// Moves the selection up by one, stopping at the top.
    pub fn move_selection_up(&mut self)
        ensures
            final(self)@ == old(self)@.after_move_up(),
    {
        if self.selected > 0 {
            self.selected = self.selected - 1;
        }
    }

    /// The position of the note under the cursor, if the cursor is on a visible note.
    pub fn cursor_index(&self) -> (r: Option<usize>)
        ensures
            match self@.cursor() {
                Some(k) => r == Some(k as usize) && k < self.notes@.len(),
                None => r is None,
            },
    {
        let idx = self.visible_indices();
        let n = self.notes.len();
        proof {
            assert(self@.notes.len() == n);
            lemma_visible_in_bounds(self@.notes, self@.query);
        }
        if self.selected < idx.len() {
            Some(idx[self.selected])
        } else {
            None
        }
    }

    /// The position of the first note whose id is `id`, or the number of notes if none has it.
    pub fn find_note(&self, id: &String) -> (r: usize)
        ensures
            r == first_with_id(self@.notes, id@),
    {
        let mut i: usize = 0;
        while i < self.notes.len()
            invariant
                i <= self.notes.len() == self@.notes.len(),
                first_with_id(self@.notes, id@) == id_pos_from(self@.notes, id@, i as int),
            decreases self.notes.len() - i,
        {
            if self.notes[i].id == *id {
                return i;
            }
            i = i + 1;
        }
        i
    }

    /// Whether `id` is among the marked note ids.
    pub fn is_marked(&self, id: &String) -> (r: bool)
        ensures
            r == self@.marked.contains(id@),
    {
        contains_string(&self.multi_selected, id)
    }

    /// Whether some note is marked.
    fn has_marks(&self) -> (r: bool)
        ensures
            r == self@.has_marks(),
    {
        proof {
            lemma_marks_empty(self.multi_selected@);
        }
        !self.multi_selected.is_empty()
    }

    /// Switches to adding a note, with an empty input.
    pub fn start_add(&mut self)
        ensures
            final(self)@ == old(self)@.after_start_add(),
    {
        self.mode = Mode::Adding;
        self.input_buffer.clear();
    }

    /// Adds a note made from the trimmed input to the current scope, unless the trimmed input
    /// is empty; then returns the new note, back in normal mode with an empty input.
    pub fn confirm_add(&mut self) -> (r: Option<Note>)
        ensures
            trimmed(old(self)@.input).len() == 0 ==> r is None && final(self)@ == old(self)@,
            trimmed(old(self)@.input).len() > 0 ==> r is Some && old(self)@.fresh_note(r->0@)
                && final(self)@ == old(self)@.after_add(r->0@),
    {
        let text = trim_text(self.input_buffer.as_str());
        if text.as_str().is_empty() {
            return None;
        }
        let note = Note::new(text, self.scope.clone());
        let ret = note.clone();
        let ghost before = self.notes@;
        self.notes.push(note);
        assert(note_views(self.notes@) =~= note_views(before).push(ret@));
        self.input_buffer.clear();
        self.mode = Mode::Normal;
        self.clamp_selection();
        Some(ret)
    }

    /// Leaves adding without a note.
    pub fn cancel_add(&mut self)
        ensures
            final(self)@ == old(self)@.after_cancel_input(),
    {
        self.input_buffer.clear();
        self.mode = Mode::Normal;
    }

    /// Starts editing the note under the cursor, its text in the input; does nothing when no
    /// note is under the cursor.
    pub fn start_edit(&mut self)
        ensures
            final(self)@ == old(self)@.after_start_edit(),
    {
        if let Some(k) = self.cursor_index() {
            self.input_buffer = self.notes[k].text.clone();
            self.mode = Mode::Editing;
        }
    }

    /// Replaces the text (and tags) of the first note carrying the cursor note's id with the
    /// trimmed input, and returns that note; nothing changes when the trimmed input is empty
    /// or no note is under the cursor.
    pub fn confirm_edit(&mut self) -> (r: Option<Note>)
        ensures
            final(self)@ == old(self)@.after_confirm_edit(),
            match old(self)@.edit() {
                Some(e) => r is Some && r->0@ == e.1,
                None => r is None,
            },
    {
        let text = trim_text(self.input_buffer.as_str());
        if text.as_str().is_empty() {
            return None;
        }
        if let Some(k) = self.cursor_index() {
            let id = self.notes[k].id.clone();
            let j = self.find_note(&id);
            proof {
                lemma_id_pos(self@.notes, id@, 0, k as int);
            }
            let mut note = self.notes[j].clone();
            note.tags = extract_tags(text.as_str());
            note.text = text;
            let cloned = note.clone();
            let ghost before = self.notes@;
            self.notes.set(j, note);
            assert(note_views(self.notes@) =~= note_views(before).update(j as int, cloned@));
            self.input_buffer.clear();
            self.mode = Mode::Normal;
            self.clamp_selection();
            return Some(cloned);
        }
        None
    }

    /// Leaves editing without a change.
    pub fn cancel_edit(&mut self)
        ensures
            final(self)@ == old(self)@.after_cancel_input(),
    {
        self.input_buffer.clear();
        self.mode = Mode::Normal;
    }

    /// With marked notes, flips the done state of every marked note and clears the marks;
    /// otherwise flips the first note carrying the cursor note's id.
    pub fn toggle_selected_done(&mut self)
        ensures
            final(self)@ == old(self)@.after_toggle_done(),
    {
        if self.has_marks() {
            let ghost old_notes = self@.notes;
            let ghost marks = self@.marked;
            let mut i: usize = 0;
            while i < self.notes.len()
                invariant
                    i <= self.notes.len() == old_notes.len(),
                    marks == views(self.multi_selected@).to_set(),
                    marks == old(self)@.marked,
                    self@ == (AppView { notes: self@.notes, ..old(self)@ }),
                    forall|k: int| 0 <= k < i ==> #[trigger] self@.notes[k] == (if marks.contains(old_notes[k].id) { toggled(old_notes[k]) } else { old_notes[k] }),
                    forall|k: int| i <= k < old_notes.len() ==> #[trigger] self@.notes[k] == old_notes[k],
                decreases self.notes.len() - i,
            {
                assert(self@.notes[i as int] == old_notes[i as int]);
                assert(self@.notes[i as int] == self.notes@[i as int]@);
                let ghost before = self.notes@;
                if contains_string(&self.multi_selected, &self.notes[i].id) {
                    let mut n = self.notes[i].clone();
                    n.toggle_done();
                    self.notes.set(i, n);
                    assert(self@.notes =~= note_views(before).update(i as int, n@));
                    assert(self@.notes[i as int] == toggled(old_notes[i as int]));
                } else {
                    assert(!marks.contains(old_notes[i as int].id));
                }
                assert forall|k: int| 0 <= k < i + 1 implies #[trigger] self@.notes[k] == (if marks.contains(old_notes[k].id) { toggled(old_notes[k]) } else { old_notes[k] }) by {
                    if k < i {
                        assert(self@.notes[k] == note_views(before)[k]);
                    }
                }
                assert forall|k: int| i + 1 <= k < old_notes.len() implies #[trigger] self@.notes[k] == old_notes[k] by {
                    assert(self@.notes[k] == note_views(before)[k]);
                }
                i = i + 1;
            }
            assert(self@.notes =~= old(self)@.after_toggle_done().notes);
            self.multi_selected.clear();
            assert(views(self.multi_selected@).to_set() =~= Set::empty());
            return;
        }
        if let Some(k) = self.cursor_index() {
            let id = self.notes[k].id.clone();
            let j = self.find_note(&id);
            proof {
                lemma_id_pos(self@.notes, id@, 0, k as int);
            }
            let mut n = self.notes[j].clone();
            n.toggle_done();
            let ghost before = self.notes@;
            self.notes.set(j, n);
            assert(self@.notes =~= note_views(before).update(j as int, n@));
        }
    }

    /// Marks the note under the cursor for bulk actions, or unmarks it if it was marked.
    pub fn toggle_multi_select(&mut self)
        ensures
            final(self)@ == old(self)@.after_toggle_mark(),
    {
        if let Some(k) = self.cursor_index() {
            let id = self.notes[k].id.clone();
            if contains_string(&self.multi_selected, &id) {
                remove_string(&mut self.multi_selected, &id);
            } else {
                let ghost before = self.multi_selected@;
                self.multi_selected.push(id);
                proof {
                    assert(views(self.multi_selected@) =~= views(before).push(id@));
                    views(before).lemma_push_to_set_commute(id@);
                }
            }
        }
    }

    /// Asks to confirm a deletion, when a note is under the cursor.
    pub fn start_delete_confirm(&mut self)
        ensures
            final(self)@ == old(self)@.after_start_delete(),
    {
        if self.selected < self.visible_indices().len() {
            self.mode = Mode::ConfirmDelete;
        }
    }

    /// Carries out a confirmed deletion: with marks, removes every marked note, clears the
    /// marks and reports `bulk`; otherwise removes every note carrying the cursor note's id and
    /// reports that id. Outside the confirmation nothing happens.
    pub fn confirm_delete(&mut self) -> (r: Option<String>)
        ensures
            final(self)@ == old(self)@.after_confirm_delete(),
            match old(self)@.deletion() {
                Some(d) => r is Some && r->0@ == d,
                None => r is None,
            },
    {
        broadcast use vstd::string::group_string_axioms;
        match self.mode {
            Mode::ConfirmDelete => {},
            _ => {
                return None;
            },
        }
        if self.has_marks() {
            self.notes = notes_without_ids(&self.notes, &self.multi_selected);
            self.multi_selected.clear();
            assert(views(self.multi_selected@).to_set() =~= Set::empty());
            self.mode = Mode::Normal;
            self.clamp_selection();
            return Some("bulk".to_string());
        }
        if let Some(k) = self.cursor_index() {
            let id = self.notes[k].id.clone();
            let mut ids: Vec<String> = Vec::new();
            ids.push(id.clone());
            assert(views(ids@).to_set() =~= Set::empty().insert(id@)) by {
                assert(views(ids@) =~= seq![id@]);
                assert(views(ids@)[0] == id@);
            }
            self.notes = notes_without_ids(&self.notes, &ids);
            self.mode = Mode::Normal;
            self.clamp_selection();
            Some(id)
        } else {
            self.mode = Mode::Normal;
            None
        }
    }

    /// Leaves the confirmation without deleting.
    pub fn cancel_delete(&mut self)
        ensures
            final(self)@ == old(self)@.with_mode(Mode::Normal),
    {
        self.mode = Mode::Normal;
    }

    /// Switches to typing a search query.
    pub fn start_search(&mut self)
        ensures
            final(self)@ == old(self)@.with_mode(Mode::Searching),
    {
        self.mode = Mode::Searching;
    }

    /// Keeps the query and returns to normal mode, the selection clamped to the matches.
    pub fn apply_search(&mut self)
        ensures
            final(self)@ == old(self)@.with_mode(Mode::Normal).clamped(),
    {
        self.mode = Mode::Normal;
        self.clamp_selection();
    }

    /// Clears the query and returns to normal mode, the selection clamped.
    pub fn clear_search(&mut self)
        ensures
            final(self)@ == old(self)@.after_clear_search(),
    {
        self.search_query.clear();
        self.mode = Mode::Normal;
        self.clamp_selection();
    }

    /// Switches between the current scope and all scopes, the selection clamped.
    pub fn toggle_global_view(&mut self)
        ensures
            final(self)@ == old(self)@.after_toggle_global(),
    {
        self.show_global = !self.show_global;
        self.clamp_selection();
    }
}

/// The marks are empty exactly when the vector holding them is.
proof fn lemma_marks_empty(v: Seq<String>)
    ensures
        (views(v).to_set() == Set::<Seq<char>>::empty()) <==> v.len() == 0,
{
    if v.len() == 0 {
        assert(views(v).to_set() =~= Set::<Seq<char>>::empty());
    } else {
        assert(views(v).to_set().contains(v[0]@)) by {
            assert(views(v)[0] == v[0]@);
        }
    }
}

/// Removes every string equal to `s` from `v`; the others stay.
fn remove_string(v: &mut Vec<String>, s: &String)
    ensures
        views(final(v)@).to_set() == views(old(v)@).to_set().remove(s@),
{
    let mut kept: Vec<String> = Vec::new();
    let mut i: usize = 0;
    while i < v.len()
        invariant
            i <= v.len(),
            views(kept@).to_set() == views(v@.take(i as int)).to_set().remove(s@),
        decreases v.len() - i,
    {
        let ghost prev = views(v@.take(i as int));
        let ghost prev_kept = views(kept@);
        proof {
            assert(views(v@.take(i + 1)) =~= prev.push(v@[i as int]@));
            prev.lemma_push_to_set_commute(v@[i as int]@);
        }
        if v[i] != *s {
            kept.push(v[i].clone());
            proof {
                assert(views(kept@) =~= prev_kept.push(v@[i as int]@));
                prev_kept.lemma_push_to_set_commute(v@[i as int]@);
            }
            assert(views(kept@).to_set() =~= views(v@.take(i + 1)).to_set().remove(s@));
        } else {
            assert(views(kept@).to_set() =~= views(v@.take(i + 1)).to_set().remove(s@));
        }
        i = i + 1;
    }
    assert(v@.take(v.len() as int) =~= v@);
    *v = kept;
}

/// Copies of the notes whose id is not among `ids`, in order.
fn notes_without_ids(notes: &Vec<Note>, ids: &Vec<String>) -> (r: Vec<Note>)
    ensures
        note_views(r@) == without_ids(note_views(notes@), views(ids@).to_set()),
{
    let ghost marks = views(ids@).to_set();
    let ghost pred = |n: NoteView| !marks.contains(n.id);
    let mut r: Vec<Note> = Vec::new();
    let mut i: usize = 0;
    while i < notes.len()
        invariant
            i <= notes.len(),
            marks == views(ids@).to_set(),
            pred == (|n: NoteView| !marks.contains(n.id)),
            note_views(r@) == note_views(notes@).take(i as int).filter(pred),
        decreases notes.len() - i,
    {
        let ghost prev = note_views(notes@).take(i as int);
        let ghost before = r@;
        proof {
            assert(note_views(notes@).take(i + 1) =~= prev.push(notes@[i as int]@));
            prev.lemma_filter_push(notes@[i as int]@, pred);
        }
        if !contains_string(ids, &notes[i].id) {
            let n = notes[i].clone();
            r.push(n);
            assert(note_views(r@) =~= note_views(before).push(notes@[i as int]@));
        }
        i = i + 1;
    }
    assert(note_views(notes@).take(notes.len() as int) =~= note_views(notes@));
    r
}

/// Scores, and so the visible list, depend on the text and tags of the notes only.
proof fn lemma_scored_same_text(n1: Seq<NoteView>, n2: Seq<NoteView>, q: Seq<char>)
    requires
        n1.len() == n2.len(),
        forall|i: int| 0 <= i < n1.len() ==> n1[i].text == n2[i].text && n1[i].tags == n2[i].tags,
    ensures
        scored(n1, q) == scored(n2, q),
    decreases n1.len(),
{
    if n1.len() > 0 {
        lemma_scored_same_text(n1.drop_last(), n2.drop_last(), q);
        assert(n1.last().text == n2.last().text && n1.last().tags == n2.last().tags);
    }
}

proof fn lemma_visible_same_text(n1: Seq<NoteView>, n2: Seq<NoteView>, query: Seq<char>)
    requires
        n1.len() == n2.len(),
        forall|i: int| 0 <= i < n1.len() ==> n1[i].text == n2[i].text && n1[i].tags == n2[i].tags,
    ensures
        visible_order(n1, query) == visible_order(n2, query),
{
    lemma_scored_same_text(n1, n2, lowercase(query));
}

/// After clamping, the selection is on a visible note, or 0 when none is visible.
pub proof fn lemma_clamped_in_range(a: AppView)
    requires
        a.notes.len() <= usize::MAX,
    ensures
        a.clamped().visible() == a.visible(),
        a.clamped().selected < a.visible().len() || (a.visible().len() == 0
            && a.clamped().selected == 0),
{
    lemma_visible_in_bounds(a.notes, a.query);
}

/// Moving down and then up returns to the same selection, when there was a note below.
pub proof fn lemma_move_down_then_up(a: AppView)
    requires
        a.selected + 1 < a.visible().len(),
        a.notes.len() <= usize::MAX,
    ensures
        a.after_move_down().after_move_up() == a,
{
    lemma_visible_in_bounds(a.notes, a.query);
}

/// Moving up and then down returns to the same selection, when the selection was on a visible
/// note below the top.
pub proof fn lemma_move_up_then_down(a: AppView)
    requires
        0 < a.selected < a.visible().len(),
    ensures
        a.after_move_up().after_move_down() == a,
{
}

/// Starting to add a note and cancelling changes nothing but the input (now empty), when
/// started from normal mode.
pub proof fn lemma_add_then_cancel(a: AppView)
    requires
        a.mode == Mode::Normal,
    ensures
        a.after_start_add().after_cancel_input() == (AppView { input: Seq::empty(), ..a }),
{
}

/// Toggling the done state twice, with no marks, restores the notes.
pub proof fn lemma_toggle_done_twice(a: AppView)
    requires
        !a.has_marks(),
        a.notes.len() <= usize::MAX,
    ensures
        a.after_toggle_done().after_toggle_done() == a,
{
    let b = a.after_toggle_done();
    if let Some(k) = a.cursor() {
        let j = first_with_id(a.notes, a.notes[k].id);
        lemma_visible_in_bounds(a.notes, a.query);
        lemma_id_pos(a.notes, a.notes[k].id, 0, k);
        lemma_visible_same_text(a.notes, b.notes, a.query);
        assert(b.cursor() == Some(k));
        assert(b.notes[k].id == a.notes[k].id);
        lemma_same_ids_first(a.notes, b.notes, a.notes[k].id);
        assert(b.after_toggle_done().notes =~= a.notes);
    }
}

/// Notes with the same ids in the same places have the same first note for each id.
proof fn lemma_same_ids_first(n1: Seq<NoteView>, n2: Seq<NoteView>, id: Seq<char>)
    requires
        n1.len() == n2.len(),
        forall|i: int| 0 <= i < n1.len() ==> n1[i].id == n2[i].id,
    ensures
        first_with_id(n1, id) == first_with_id(n2, id),
{
    assert forall|i: int| 0 <= i <= n1.len() implies id_pos_from(n1, id, i) == id_pos_from(n2, id, i) by {
        lemma_same_ids_from(n1, n2, id, i);
    }
}

proof fn lemma_same_ids_from(n1: Seq<NoteView>, n2: Seq<NoteView>, id: Seq<char>, i: int)
    requires
        n1.len() == n2.len(),
        0 <= i <= n1.len(),
        forall|k: int| 0 <= k < n1.len() ==> n1[k].id == n2[k].id,
    ensures
        id_pos_from(n1, id, i) == id_pos_from(n2, id, i),
    decreases n1.len() - i,
{
    if i < n1.len() {
        lemma_same_ids_from(n1, n2, id, i + 1);
    }
}

/// Marking the note under the cursor twice leaves the marks as they were.
pub proof fn lemma_toggle_mark_twice(a: AppView)
    ensures
        a.after_toggle_mark().after_toggle_mark() == a,
{
    let b = a.after_toggle_mark();
    if let Some(k) = a.cursor() {
        let id = a.notes[k].id;
        assert(b.cursor() == Some(k));
        if a.marked.contains(id) {
            assert(b.marked.insert(id) =~= a.marked);
        } else {
            assert(b.marked.remove(id) =~= a.marked);
        }
    }
}

/// The deletion law: after a confirmed deletion no remaining note carries a deleted id (a
/// marked id, or the id that is reported), and every other note remains, in order.
pub proof fn lemma_delete_removes(a: AppView)
    requires
        a.deletion() is Some,
    ensures
        a.has_marks() ==> forall|i: int| 0 <= i < a.after_confirm_delete().notes.len()
            ==> !a.marked.contains(#[trigger] a.after_confirm_delete().notes[i].id),
        !a.has_marks() ==> forall|i: int| 0 <= i < a.after_confirm_delete().notes.len()
            ==> #[trigger] a.after_confirm_delete().notes[i].id != a.deletion()->0,
        a.has_marks() ==> a.after_confirm_delete().notes == without_ids(a.notes, a.marked),
        !a.has_marks() ==> a.after_confirm_delete().notes == without_ids(
            a.notes,
            Set::empty().insert(a.deletion()->0),
        ),
{
    let ids = if a.has_marks() { a.marked } else { Set::empty().insert(a.deletion()->0) };
    let pred = |n: NoteView| !ids.contains(n.id);
    let r = a.notes.filter(pred);
    assert forall|i: int| 0 <= i < r.len() implies !ids.contains(#[trigger] r[i].id) by {
        a.notes.lemma_filter_pred(pred, i);
    }
}

/// Clearing the search shows every note again, in order.
pub proof fn lemma_clear_search_shows_all(a: AppView)
    ensures
        a.after_clear_search().visible() == Seq::new(a.notes.len(), |i: int| i as usize),
{
    assert(trimmed(Seq::<char>::empty()) =~= Seq::<char>::empty());
}

/// An edit changes only the text and tags of the edited note: its id, scope, creation time
/// and done state stay.
pub proof fn lemma_edit_keeps_identity(a: AppView)
    requires
        a.edit() is Some,
        a.notes.len() <= usize::MAX,
    ensures
        0 <= a.edit().unwrap().0 < a.notes.len(),
        a.edit().unwrap().1.id == a.notes[a.edit().unwrap().0].id,
        a.edit().unwrap().1.scope == a.notes[a.edit().unwrap().0].scope,
        a.edit().unwrap().1.created_at == a.notes[a.edit().unwrap().0].created_at,
        a.edit().unwrap().1.done == a.notes[a.edit().unwrap().0].done,
        a.edit().unwrap().1.text == trimmed(a.input),
{
    let k = a.cursor()->0;
    lemma_visible_in_bounds(a.notes, a.query);
    lemma_id_pos(a.notes, a.notes[k].id, 0, k);
}

/// Flipping a note's done state twice restores the note.
pub proof fn lemma_toggled_twice(n: NoteView)
    ensures
        toggled(toggled(n)) == n,
{
}

/// The bulk toggle law: with marks, every marked note's done state is negated and every other
/// note keeps its own; nothing else about any note changes, and the marks are cleared.
pub proof fn lemma_bulk_toggle_flips_marked(a: AppView)
    requires
        a.has_marks(),
    ensures
        a.after_toggle_done().notes.len() == a.notes.len(),
        forall|k: int| 0 <= k < a.notes.len() ==> (#[trigger] a.after_toggle_done().notes[k]).done == (
        if a.marked.contains(a.notes[k].id) {
            !a.notes[k].done
        } else {
            a.notes[k].done
        }),
        forall|k: int| 0 <= k < a.notes.len() ==> {
            let n = #[trigger] a.after_toggle_done().notes[k];
            &&& n.id == a.notes[k].id
            &&& n.text == a.notes[k].text
            &&& n.tags == a.notes[k].tags
            &&& n.scope == a.notes[k].scope
            &&& n.created_at == a.notes[k].created_at
        },
        a.after_toggle_done().marked == Set::<Seq<char>>::empty(),
        a.after_toggle_done().selected == a.selected,
        a.after_toggle_done().query == a.query,
{
}

/// Toggling twice with the same marks restores the notes: the bulk toggle is its own inverse.
pub proof fn lemma_bulk_toggle_twice(a: AppView)
    requires
        a.has_marks(),
    ensures
        (AppView { marked: a.marked, ..a.after_toggle_done() }).after_toggle_done().notes == a.notes,
{
    let b = AppView { marked: a.marked, ..a.after_toggle_done() };
    assert(b.has_marks());
    assert(b.after_toggle_done().notes =~= a.notes);
}

/// Notes before the first one with `id` do not carry it.
proof fn lemma_id_pos_first(notes: Seq<NoteView>, id: Seq<char>, i: int)
    requires
        0 <= i <= notes.len(),
    ensures
        forall|m: int| i <= m < id_pos_from(notes, id, i) && m < notes.len() ==> #[trigger] notes[m].id != id,
    decreases notes.len() - i,
{
    if i < notes.len() && notes[i].id != id {
        lemma_id_pos_first(notes, id, i + 1);
    }
}

/// The edit law: a confirmed edit changes the note under the cursor — the first note carrying
/// the id of the selected visible note — giving it the trimmed input as text and that text's
/// tags, and leaves every other note as it was.
pub proof fn lemma_edit_targets_cursor_note(a: AppView)
    requires
        a.notes.len() <= usize::MAX,
        a.edit() is Some,
    ensures
        a.selected < a.visible().len(),
        ({
            let id = a.notes[a.visible()[a.selected as int] as int].id;
            let j = a.edit().unwrap().0;
            let b = a.after_confirm_edit();
            &&& 0 <= j < a.notes.len()
            &&& a.notes[j].id == id
            &&& forall|m: int| 0 <= m < j ==> (#[trigger] a.notes[m]).id != id
            &&& b.notes.len() == a.notes.len()
            &&& forall|m: int| 0 <= m < a.notes.len() && m != j ==> #[trigger] b.notes[m] == a.notes[m]
            &&& b.notes[j].id == id
            &&& b.notes[j].text == trimmed(a.input)
            &&& b.notes[j].tags == tags_of(trimmed(a.input))
        }),
{
    let k = a.cursor()->0;
    lemma_visible_in_bounds(a.notes, a.query);
    lemma_id_pos(a.notes, a.notes[k].id, 0, k);
    lemma_id_pos_first(a.notes, a.notes[k].id, 0);
}

/// The add law: confirming a note appends it after all existing notes, which stay as they were,
/// and empties the input.
pub proof fn lemma_add_appends(a: AppView, n: NoteView)
    ensures
        a.after_add(n).notes.len() == a.notes.len() + 1,
        a.after_add(n).notes[a.notes.len() as int] == n,
        forall|k: int| 0 <= k < a.notes.len() ==> #[trigger] a.after_add(n).notes[k] == a.notes[k],
        a.after_add(n).input.len() == 0,
        a.after_add(n).mode == Mode::Normal,
{
}

} // verus!
