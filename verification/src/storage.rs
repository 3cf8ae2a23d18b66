//! How notes are laid out in storage: one `<scope>.json` file per scope, and which scopes a
//! save writes.
use vstd::prelude::*;
use crate::model::{Note, NoteView, dedup, lemma_dedup, lemma_dedup_push, note_views};
use crate::text::{chars_of, contains_string, string_from_chars, views};

verus! {

/// The file name that holds a scope's notes.
pub open spec fn scope_file_spec(scope: Seq<char>) -> Seq<char> {
    scope + ".json"@
}

/// The name of the file that holds the notes of `scope`: the scope followed by `.json`.
pub fn scope_file_name(scope: &str) -> (r: String)
    ensures
        r@ == scope_file_spec(scope@),
{
    broadcast use vstd::string::group_string_axioms;
    let mut r = scope.to_string();
    r.append(".json");
    r
}

/// The position of the last `.` in `s`, if any.
pub open spec fn last_dot(s: Seq<char>) -> Option<int>
    decreases s.len(),
{
    if s.len() == 0 {
        None
    } else if s.last() == '.' {
        Some(s.len() - 1)
    } else {
        last_dot(s.drop_last())
    }
}

/// The scope whose notes a file of this name holds: the name without its extension, when the
/// extension is `json` and the name does not start with the dot that begins it.
pub open spec fn scope_of_file_spec(name: Seq<char>) -> Option<Seq<char>> {
    match last_dot(name) {
        Some(p) => if p > 0 && name.skip(p + 1) == "json"@ {
            Some(name.take(p))
        } else {
            None
        },
        None => None,
    }
}

/// The scope a file of this name holds, if it is a scope file (`<scope>.json`, with a
/// non-empty scope).
pub fn scope_of_file_name(name: &str) -> (r: Option<String>)
    ensures
        match scope_of_file_spec(name@) {
            Some(s) => r is Some && r->0@ == s,
            None => r is None,
        },
{
    proof {
        reveal_strlit("json");
    }
    let chars = chars_of(name);
    let mut p = chars.len();
    assert(name@.take(p as int) =~= name@);
    while p > 0 && chars[p - 1] != '.'
        invariant
            p <= chars.len(),
            chars@ == name@,
            last_dot(name@) == last_dot(name@.take(p as int)),
        decreases p,
    {
        assert(name@.take(p as int).drop_last() =~= name@.take(p - 1));
        p = p - 1;
    }
    if p <= 1 {
        proof {
            if p == 1 {
                assert(last_dot(name@.take(1)) == Some(0int));
            } else {
                assert(last_dot(name@.take(0)) is None);
            }
        }
        return None;
    }
    let dot = p - 1;
    assert(last_dot(name@.take(p as int)) == Some(dot as int));
    let n = chars.len();
    if n - p == 4 && chars[p] == 'j' && chars[p + 1] == 's' && chars[p + 2] == 'o' && chars[p + 3] == 'n' {
        assert(name@.skip(p as int) =~= "json"@);
        let s = string_from_chars(&chars, 0, dot);
        assert(s@ =~= name@.take(dot as int));
        Some(s)
    } else {
        proof {
            if name@.skip(p as int) == "json"@ {
                let t = name@.skip(p as int);
                assert(t.len() == 4);
                assert(n - p == 4);
                assert(t[0] == 'j' && t[1] == 's' && t[2] == 'o' && t[3] == 'n');
                assert(chars@[p as int] == t[0]);
                assert(chars@[p + 1] == t[1]);
                assert(chars@[p + 2] == t[2]);
                assert(chars@[p + 3] == t[3]);
                assert(false);
            }
            assert(scope_of_file_spec(name@) is None);
        }
        None
    }
}

/// The file-name law: listing the storage directory finds again every scope that was saved,
/// under its own name — exactly when the scope is not empty.
pub proof fn lemma_scope_file_round_trip(scope: Seq<char>)
    ensures
        scope.len() > 0 ==> scope_of_file_spec(scope_file_spec(scope)) == Some(scope),
        scope.len() == 0 ==> scope_of_file_spec(scope_file_spec(scope)) is None,
{
    reveal_strlit(".json");
    reveal_strlit("json");
    let f = scope_file_spec(scope);
    let k = scope.len() as int;
    let f1 = scope + seq!['.', 'j', 's', 'o'];
    let f2 = scope + seq!['.', 'j', 's'];
    let f3 = scope + seq!['.', 'j'];
    let f4 = scope.push('.');
    assert(f.drop_last() =~= f1);
    assert(f1.drop_last() =~= f2);
    assert(f2.drop_last() =~= f3);
    assert(f3.drop_last() =~= f4);
    assert(f4.last() == '.');
    assert(last_dot(f4) == Some(k));
    assert(f3.last() == 'j');
    assert(last_dot(f3) == Some(k));
    assert(f2.last() == 's');
    assert(last_dot(f2) == Some(k));
    assert(f1.last() == 'o');
    assert(last_dot(f1) == Some(k));
    assert(f.last() == 'n');
    assert(last_dot(f) == Some(k));
    assert(f.skip(k + 1) =~= "json"@);
    assert(f.take(k) =~= scope);
}

/// The scopes a save writes, in order: the scopes of the notes, then the active scope, then
/// (in the global view) every scope already stored; each once, at its first appearance.
pub open spec fn save_scopes(notes: Seq<NoteView>, scope: Seq<char>, show_global: bool, stored: Seq<Seq<char>>) -> Seq<Seq<char>> {
    dedup(
        notes.map_values(|n: NoteView| n.scope) + seq![scope] + (if show_global { stored } else { seq![] }),
    )
}

/// The notes of one scope, in order.
pub open spec fn notes_in_scope(notes: Seq<NoteView>, scope: Seq<char>) -> Seq<NoteView> {
    notes.filter(|n: NoteView| n.scope == scope)
}

/// One scope file to write: the scope and all of its notes.
pub struct SaveGroup {
    pub scope: String,
    pub notes: Vec<Note>,
}

/// Groups the notes for saving after a change: one group per scope that `save_scopes` lists,
/// each holding that scope's notes in order (possibly none, so that a scope whose last note
/// was deleted is written empty).
pub fn save_plan(notes: &Vec<Note>, scope: &String, show_global: bool, stored: &Vec<String>) -> (r: Vec<SaveGroup>)
    ensures
        r.len() == save_scopes(note_views(notes@), scope@, show_global, views(stored@)).len(),
        forall|i: int| 0 <= i < r.len() ==> {
            &&& (#[trigger] r@[i]).scope@ == save_scopes(note_views(notes@), scope@, show_global, views(stored@))[i]
            &&& note_views(r@[i].notes@) == notes_in_scope(note_views(notes@), r@[i].scope@)
        },
{
    let mut candidates: Vec<String> = Vec::new();
    let mut i: usize = 0;
    while i < notes.len()
        invariant
            i <= notes.len(),
            views(candidates@) == note_views(notes@).take(i as int).map_values(|n: NoteView| n.scope),
        decreases notes.len() - i,
    {
        let ghost before = views(candidates@);
        candidates.push(notes[i].scope.clone());
        assert(views(candidates@) =~= before.push(notes@[i as int]@.scope));
        assert(note_views(notes@).take(i + 1) =~= note_views(notes@).take(i as int).push(notes@[i as int]@));
        assert(views(candidates@) =~= note_views(notes@).take(i + 1).map_values(|n: NoteView| n.scope));
        i = i + 1;
    }
    assert(note_views(notes@).take(notes.len() as int) =~= note_views(notes@));
    let ghost from_notes = views(candidates@);
    candidates.push(scope.clone());
    assert(views(candidates@) =~= from_notes + seq![scope@]);
    if show_global {
        let ghost base = views(candidates@);
        let mut j: usize = 0;
        while j < stored.len()
            invariant
                j <= stored.len(),
                views(candidates@) == base + views(stored@).take(j as int),
            decreases stored.len() - j,
        {
            let ghost before = views(candidates@);
            candidates.push(stored[j].clone());
            assert(views(candidates@) =~= before.push(stored@[j as int]@));
            assert(views(stored@).take(j + 1) =~= views(stored@).take(j as int).push(stored@[j as int]@));
            assert(views(candidates@) =~= base + views(stored@).take(j + 1));
            j = j + 1;
        }
        assert(views(stored@).take(stored.len() as int) =~= views(stored@));
    } else {
        assert(views(candidates@) =~= views(candidates@) + seq![]);
    }
    let ghost all = views(candidates@);
    assert(all == note_views(notes@).map_values(|n: NoteView| n.scope) + seq![scope@] + (if show_global { views(stored@) } else { seq![] }));
    let mut keys: Vec<String> = Vec::new();
    let mut k: usize = 0;
    while k < candidates.len()
        invariant
            k <= candidates.len(),
            all == views(candidates@),
            views(keys@) == dedup(all.take(k as int)),
        decreases candidates.len() - k,
    {
        proof {
            assert(all.take(k + 1) =~= all.take(k as int).push(all[k as int]));
            lemma_dedup_push(all.take(k as int), all[k as int]);
        }
        if !contains_string(&keys, &candidates[k]) {
            let ghost before = views(keys@);
            keys.push(candidates[k].clone());
            assert(views(keys@) =~= before.push(all[k as int]));
        }
        k = k + 1;
    }
    assert(all.take(candidates.len() as int) =~= all);
    let mut groups: Vec<SaveGroup> = Vec::new();
    let mut g: usize = 0;
    while g < keys.len()
        invariant
            g <= keys.len(),
            views(keys@) == save_scopes(note_views(notes@), scope@, show_global, views(stored@)),
            groups.len() == g,
            forall|i: int| 0 <= i < g ==> {
                &&& (#[trigger] groups@[i]).scope@ == views(keys@)[i]
                &&& note_views(groups@[i].notes@) == notes_in_scope(note_views(notes@), groups@[i].scope@)
            },
        decreases keys.len() - g,
    {
        let key = keys[g].clone();
        let members = notes_of_scope(notes, &key);
        groups.push(SaveGroup { scope: key, notes: members });
        g = g + 1;
    }
    groups
}

/// Copies of the notes of one scope, in order.
fn notes_of_scope(notes: &Vec<Note>, scope: &String) -> (r: Vec<Note>)
    ensures
        note_views(r@) == notes_in_scope(note_views(notes@), scope@),
{
    let ghost pred = |n: NoteView| n.scope == scope@;
    let mut r: Vec<Note> = Vec::new();
    let mut i: usize = 0;
    while i < notes.len()
        invariant
            i <= notes.len(),
            pred == (|n: NoteView| n.scope == scope@),
            note_views(r@) == note_views(notes@).take(i as int).filter(pred),
        decreases notes.len() - i,
    {
        let ghost prev = note_views(notes@).take(i as int);
        let ghost before = r@;
        proof {
            assert(note_views(notes@).take(i + 1) =~= prev.push(notes@[i as int]@));
            prev.lemma_filter_push(notes@[i as int]@, pred);
        }
        if notes[i].scope == *scope {
            r.push(notes[i].clone());
            assert(note_views(r@) =~= note_views(before).push(notes@[i as int]@));
        }
        i = i + 1;
    }
    assert(note_views(notes@).take(notes.len() as int) =~= note_views(notes@));
    r
}

/// The save law: a save writes each scope once; it always writes the active scope and the
/// scope of every note (so each note lands in the file of its own scope, and only there); in
/// the global view it also writes every scope already stored, emptied ones included.
pub proof fn lemma_save_scopes(notes: Seq<NoteView>, scope: Seq<char>, show_global: bool, stored: Seq<Seq<char>>)
    ensures
        forall|i: int, j: int| 0 <= i < j < save_scopes(notes, scope, show_global, stored).len()
            ==> save_scopes(notes, scope, show_global, stored)[i] != save_scopes(notes, scope, show_global, stored)[j],
        save_scopes(notes, scope, show_global, stored).contains(scope),
        forall|i: int| 0 <= i < notes.len() ==> save_scopes(notes, scope, show_global, stored).contains(
            #[trigger] notes[i].scope,
        ),
        show_global ==> forall|i: int| 0 <= i < stored.len() ==> save_scopes(notes, scope, show_global, stored).contains(
            #[trigger] stored[i],
        ),
{
    let from_notes = notes.map_values(|n: NoteView| n.scope);
    let extra = if show_global { stored } else { seq![] };
    let all = from_notes + seq![scope] + extra;
    lemma_dedup(all);
    assert(save_scopes(notes, scope, show_global, stored) == dedup(all));
    assert(all[from_notes.len() as int] == scope);
    assert(all.contains(scope));
    assert forall|i: int| 0 <= i < notes.len() implies save_scopes(notes, scope, show_global, stored).contains(
        #[trigger] notes[i].scope,
    ) by {
        assert(all[i] == notes[i].scope);
        assert(all.contains(notes[i].scope));
    }
    if show_global {
        assert forall|i: int| 0 <= i < stored.len() implies save_scopes(notes, scope, show_global, stored).contains(
            #[trigger] stored[i],
        ) by {
            assert(all[from_notes.len() + 1 + i] == stored[i]);
            assert(all.contains(stored[i]));
        }
    }
}

} // verus!
