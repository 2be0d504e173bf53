//! Search for a package's manifest in the text that a build tool reports.

use vstd::prelude::*;

verus! {

/// The pattern stands at a position of the text.
pub open spec fn occurs_at(text: Seq<char>, pattern: Seq<char>, i: int) -> bool {
    0 <= i && i + pattern.len() <= text.len() && text.subrange(i, i + pattern.len()) == pattern
}

/// The first position, from a given one on, at which the pattern stands.
pub open spec fn first_at(text: Seq<char>, pattern: Seq<char>, from: int) -> Option<int>
    decreases text.len() - from,
{
    if from + pattern.len() > text.len() {
        None
    } else if occurs_at(text, pattern, from) {
        Some(from)
    } else if from >= text.len() {
        None
    } else {
        first_at(text, pattern, from + 1)
    }
}

/// The first position is one at which the pattern stands, and it stands at none before;
/// where there is no first position, it stands nowhere.
pub proof fn lemma_first_at(text: Seq<char>, pattern: Seq<char>, from: int)
    requires
        0 <= from,
    ensures
        match first_at(text, pattern, from) {
            Some(i) => from <= i && occurs_at(text, pattern, i) && forall|j: int|
                from <= j < i ==> !#[trigger] occurs_at(text, pattern, j),
            None => forall|j: int| from <= j ==> !#[trigger] occurs_at(text, pattern, j),
        },
    decreases text.len() - from,
{
    if from + pattern.len() <= text.len() && !occurs_at(text, pattern, from) && from < text.len() {
        lemma_first_at(text, pattern, from + 1);
    }
}

/// What a package's own entry starts with: its name and then its version, which a mere
/// reference to the package lacks.
pub open spec fn entry_start(name: Seq<char>) -> Seq<char> {
    "\"name\":\""@ + name + "\",\"version\":\""@
}

/// What stands before the path of a manifest.
pub open spec fn path_start() -> Seq<char> {
    "\"manifest_path\":\""@
}

/// The path of a package's manifest: after the package's entry starts, the text from the
/// next path's start up to the quote that ends it.
pub open spec fn manifest_path(json: Seq<char>, name: Seq<char>) -> Option<Seq<char>> {
    match first_at(json, entry_start(name), 0) {
        None => None,
        Some(entry) => match first_at(json, path_start(), entry) {
            None => None,
            Some(key) => match first_at(json, "\""@, key + path_start().len()) {
                None => None,
                Some(end) => Some(json.subrange(key + path_start().len(), end)),
            },
        },
    }
}

/// The characters of a text.
fn characters(s: &str) -> (r: Vec<char>)
    ensures
        r@ == s@,
{
    let mut r: Vec<char> = Vec::new();
    for c in it: s.chars()
        invariant
            r@ == it.seq().take(it.index() as int),
            it.seq() == s@,
    {
        r.push(c);
    }
    assert(s@.take(s@.len() as int) =~= s@);
    r
}

/// Whether the pattern stands at a position.
fn stands_at(text: &Vec<char>, pattern: &Vec<char>, i: usize) -> (r: bool)
    requires
        i + pattern@.len() <= text@.len(),
    ensures
        r == occurs_at(text@, pattern@, i as int),
{
    let n: usize = pattern.len();
    let len: usize = text.len();
    let mut k: usize = 0;
    while k < n
        invariant
            k <= n == pattern@.len(),
            i + n <= len == text@.len(),
            forall|j: int| 0 <= j < k ==> text@[i + j] == #[trigger] pattern@[j],
        decreases n - k,
    {
        if text[i + k] != pattern[k] {
            assert(text@.subrange(i as int, i + n)[k as int] != pattern@[k as int]);
            return false;
        }
        k = k + 1;
    }
    assert(text@.subrange(i as int, i + n) =~= pattern@);
    true
}

/// Find a pattern from a position on.
fn find_from(text: &Vec<char>, pattern: &Vec<char>, from: usize) -> (r: Option<usize>)
    requires
        from <= text@.len(),
    ensures
        r is Some <==> first_at(text@, pattern@, from as int) is Some,
        r is Some ==> first_at(text@, pattern@, from as int) == Some(r->0 as int),
        r is Some ==> from <= r->0 && r->0 + pattern@.len() <= text@.len() <= usize::MAX,
{
    let mut i: usize = from;
    while pattern.len() <= text.len() - i
        invariant
            from <= i <= text@.len(),
            first_at(text@, pattern@, from as int) == first_at(text@, pattern@, i as int),
        decreases text@.len() - i,
    {
        if stands_at(text, pattern, i) {
            return Some(i);
        }
        if i == text.len() {
            return None;
        }
        i = i + 1;
    }
    None
}

/// Extract the path of the manifest of a package.
pub fn find_manifest_path(json: &str, name: &str) -> (r: Option<String>)
    ensures
        r is Some <==> manifest_path(json@, name@) is Some,
        r is Some ==> manifest_path(json@, name@) == Some(r->0@),
{
    let text = characters(json);
    let mut start = String::from_str("\"name\":\"");
    start.append(name);
    start.append("\",\"version\":\"");
    let entry: usize = find_from(&text, &characters(start.as_str()), 0)?;
    let key_text = characters("\"manifest_path\":\"");
    let key: usize = find_from(&text, &key_text, entry)?;
    let from: usize = key + key_text.len();
    let end: usize = find_from(&text, &characters("\""), from)?;
    Some(String::from_str(json.substring_char(from, end)))
}

} // verus!
