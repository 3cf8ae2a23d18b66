//! Which scope the notes of a working directory belong to.
use vstd::prelude::*;
use crate::text::chars_of;

verus! {

/// Characters that cannot stand in a scope's file name.
pub open spec fn forbidden_in_scope(c: char) -> bool {
    c == '/' || c == '\\' || c == ':' || c == '*' || c == '?' || c == '"' || c == '<' || c == '>'
        || c == '|'
}

/// `name` with every forbidden character replaced by `_`.
pub open spec fn sanitized(name: Seq<char>) -> Seq<char> {
    name.map_values(|c: char| if forbidden_in_scope(c) { '_' } else { c })
}

/// Makes a directory name usable as a scope: each of `/ \ : * ? " < > |` becomes `_`.
pub fn sanitize_scope_name(name: &str) -> (r: String)
    ensures
        r@ == sanitized(name@),
{
    let chars = chars_of(name);
    let mut r = String::new();
    let mut i: usize = 0;
    while i < chars.len()
        invariant
            i <= chars.len(),
            chars@ == name@,
            r@ == sanitized(name@.take(i as int)),
        decreases chars.len() - i,
    {
        let c = chars[i];
        if c == '/' || c == '\\' || c == ':' || c == '*' || c == '?' || c == '"' || c == '<' || c
            == '>' || c == '|' {
            r.push('_');
        } else {
            r.push(c);
        }
        assert(sanitized(name@.take(i + 1)) =~= sanitized(name@.take(i as int)).push(
            if forbidden_in_scope(c) { '_' } else { c },
        ));
        i = i + 1;
    }
    assert(name@.take(chars.len() as int) =~= name@);
    r
}

/// One directory on the way from the working directory up to the root.
pub struct Ancestor {
    /// The directory's last path component, when it has one that is valid UTF-8.
    pub name: Option<String>,
    /// Whether the directory holds a `.git` directory.
    pub has_git: bool,
}

/// The name of the first directory, from index `i` upward, that holds `.git` and has a name.
pub open spec fn repo_name_from(a: Seq<Ancestor>, i: int) -> Option<Seq<char>>
    decreases a.len() - i,
{
    if i < 0 || i >= a.len() {
        None
    } else if a[i].has_git && a[i].name is Some {
        Some(a[i].name->0@)
    } else {
        repo_name_from(a, i + 1)
    }
}

/// The scope of a working directory, given its ancestors (the directory itself first): the
/// sanitized name of the nearest enclosing repository, else of the directory itself, else
/// `_global`.
pub open spec fn scope_for(a: Seq<Ancestor>) -> Seq<char> {
    match repo_name_from(a, 0) {
        Some(n) => sanitized(n),
        None => if a.len() > 0 && a[0].name is Some {
            sanitized(a[0].name->0@)
        } else {
            "_global"@
        },
    }
}

/// Every directory that has a name has a non-empty one, as every component of a real path does.
pub open spec fn names_nonempty(a: Seq<Ancestor>) -> bool {
    forall|i: int| 0 <= i < a.len() && (#[trigger] a[i]).name is Some ==> a[i].name->0@.len() > 0
}

/// A scope usable as a file name stem: not empty, and free of forbidden characters.
pub open spec fn usable_scope(s: Seq<char>) -> bool {
    s.len() > 0 && forall|i: int| 0 <= i < s.len() ==> !forbidden_in_scope(#[trigger] s[i])
}

proof fn lemma_repo_name_nonempty(a: Seq<Ancestor>, i: int)
    requires
        names_nonempty(a),
    ensures
        repo_name_from(a, i) matches Some(n) ==> n.len() > 0,
    decreases a.len() - i,
{
    if 0 <= i < a.len() && !(a[i].has_git && a[i].name is Some) {
        lemma_repo_name_nonempty(a, i + 1);
    }
}

/// The scope law: when every directory name is non-empty (as on any real path), the detected
/// scope is usable as a file name stem — never empty, and free of `/ \ : * ? " < > |`.
pub proof fn lemma_scope_usable(a: Seq<Ancestor>)
    requires
        names_nonempty(a),
    ensures
        usable_scope(scope_for(a)),
{
    lemma_repo_name_nonempty(a, 0);
    reveal_strlit("_global");
    match repo_name_from(a, 0) {
        Some(n) => lemma_sanitized(n),
        None => if a.len() > 0 && a[0].name is Some {
            lemma_sanitized(a[0].name->0@);
        } else {
            assert(usable_scope("_global"@));
        },
    }
}

/// Detects the scope of a working directory from its ancestors, the directory itself first:
/// the nearest directory that holds `.git` gives its name; failing that the directory's own
/// name is used; failing that the scope is `_global`.
pub fn detect_scope(ancestors: &Vec<Ancestor>) -> (scope: String)
    ensures
        scope@ == scope_for(ancestors@),
        names_nonempty(ancestors@) ==> usable_scope(scope@),
{
    proof {
        if names_nonempty(ancestors@) {
            lemma_scope_usable(ancestors@);
        }
    }
    broadcast use vstd::string::group_string_axioms;
    let mut i: usize = 0;
    while i < ancestors.len()
        invariant
            i <= ancestors.len(),
            repo_name_from(ancestors@, 0) == repo_name_from(ancestors@, i as int),
        decreases ancestors.len() - i,
    {
        if ancestors[i].has_git {
            if let Some(name) = &ancestors[i].name {
                return sanitize_scope_name(name.as_str());
            }
        }
        i = i + 1;
    }
    if ancestors.len() > 0 {
        if let Some(name) = &ancestors[0].name {
            return sanitize_scope_name(name.as_str());
        }
    }
    "_global".to_string()
}

/// The sanitizing law: a sanitized name has the length of the original and holds no forbidden
/// character, and sanitizing it again changes nothing.
pub proof fn lemma_sanitized(name: Seq<char>)
    ensures
        sanitized(name).len() == name.len(),
        forall|i: int| 0 <= i < name.len() ==> !forbidden_in_scope(#[trigger] sanitized(name)[i]),
        sanitized(sanitized(name)) == sanitized(name),
{
    assert(sanitized(sanitized(name)) =~= sanitized(name));
}

} // verus!
