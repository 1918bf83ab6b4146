//! Labels, tags and comments kept per file. The store is a database the
//! interface reads by folder; what lies in a folder is decided here.
use vstd::prelude::*;
use crate::text::{chars_of, push_char, string_of};

verus! {

/// What is kept about one file.
#[derive(Clone, Debug)]
pub struct FileMeta {
    /// Index into the label palette (0 = none).
    pub label: u8,
    pub tags: String,
    pub comment: String,
}

impl Default for FileMeta {
    fn default() -> (r: FileMeta)
        ensures
            r.label == 0 && r.tags@.len() == 0 && r.comment@.len() == 0,
    {
        FileMeta { label: 0, tags: String::new(), comment: String::new() }
    }
}

/// The prefix a folder's direct children share: the folder, then `\`.
pub open spec fn child_prefix(dir: Seq<char>) -> Seq<char> {
    dir.push('\\')
}

/// `s` with every `%` escaped as `\%`.
pub open spec fn escape_percent(s: Seq<char>) -> Seq<char>
    decreases s.len(),
{
    if s.len() == 0 {
        s
    } else if s.last() == '%' {
        escape_percent(s.drop_last()) + seq!['\\', '%']
    } else {
        escape_percent(s.drop_last()).push(s.last())
    }
}

/// The prefix of a folder's children, and the `LIKE` pattern that selects
/// them: the prefix with `%` escaped, then `%`.
pub fn folder_query(dir: &str) -> (r: (String, String))
    ensures
        r.0@ == child_prefix(dir@),
        r.1@ == escape_percent(child_prefix(dir@)).push('%'),
{
    let mut prefix = String::new();
    prefix.append(dir);
    push_char(&mut prefix, '\\');
    let v = chars_of(prefix.as_str());
    let mut like = String::new();
    let mut i: usize = 0;
    assert(v@.take(0) =~= Seq::<char>::empty());
    while i < v.len()
        invariant
            i <= v.len(),
            like@ == escape_percent(v@.take(i as int)),
        decreases v.len() - i,
    {
        assert(v@.take(i + 1).drop_last() =~= v@.take(i as int));
        assert(v@.take(i + 1).last() == v@[i as int]);
        let ghost before = like@;
        if v[i] == '%' {
            push_char(&mut like, '\\');
            push_char(&mut like, '%');
            assert(like@ =~= before + seq!['\\', '%']);
        } else {
            push_char(&mut like, v[i]);
        }
        i += 1;
    }
    assert(v@.take(v.len() as int) =~= v@);
    push_char(&mut like, '%');
    (prefix, like)
}

/// The name of a stored path when it is a direct child of the folder whose
/// child prefix is `prefix`: what follows the prefix, holding no `\`.
pub open spec fn direct_child_spec(path: Seq<char>, prefix: Seq<char>) -> Option<Seq<char>> {
    if prefix.len() <= path.len() && path.take(prefix.len() as int) == prefix {
        let rest = path.skip(prefix.len() as int);
        if exists|i: int| 0 <= i < rest.len() && rest[i] == '\\' { None } else { Some(rest) }
    } else {
        None
    }
}

/// The file name of a stored path, when it lies directly in the folder.
pub fn direct_child(path: &str, prefix: &str) -> (r: Option<String>)
    ensures
        r matches Some(n) ==> direct_child_spec(path@, prefix@) == Some(n@),
        r is None ==> direct_child_spec(path@, prefix@) is None,
{
    let v = chars_of(path);
    let p = chars_of(prefix);
    if p.len() > v.len() {
        return None;
    }
    let mut i: usize = 0;
    while i < p.len()
        invariant
            p.len() <= v.len(),
            i <= p.len(),
            v@ == path@,
            p@ == prefix@,
            forall|k: int| 0 <= k < i ==> v@[k] == p@[k],
        decreases p.len() - i,
    {
        if v[i] != p[i] {
            assert(v@.take(p.len() as int)[i as int] != p@[i as int]);
            return None;
        }
        i += 1;
    }
    assert(v@.take(p.len() as int) =~= p@);
    let mut j: usize = p.len();
    while j < v.len()
        invariant
            p.len() <= j <= v.len(),
            v@ == path@,
            p@ == prefix@,
            v@.take(p.len() as int) == p@,
            forall|k: int| p.len() <= k < j ==> v@[k] != '\\',
        decreases v.len() - j,
    {
        if v[j] == '\\' {
            assert(v@.skip(p.len() as int)[j - p.len()] == '\\');
            return None;
        }
        j += 1;
    }
    assert forall|k: int| 0 <= k < v@.skip(p.len() as int).len() implies v@.skip(p.len() as int)[k] != '\\' by {
        assert(v@.skip(p.len() as int)[k] == v@[k + p.len()]);
    }
    let n = string_of(&v, p.len(), v.len());
    assert(v@.subrange(p.len() as int, v.len() as int) =~= v@.skip(p.len() as int));
    Some(n)
}

} // verus!
