//! Batch rename: a pattern with tokens for the old name, its extension and
//! a counter, an optional find/replace (plain or regular expression), and a
//! case change.
use vstd::prelude::*;
use crate::ops::{Operation, OpV};
use crate::paths::{file_name, file_name_spec, parent, parent_spec, join, join_spec, last_dot, last_dot_exec};
use crate::text::{chars_of, decimal, decimal_spec, owned, push_char, string_of, zero_pad, has_sub, contains_chars};
use crate::undo::ops_view;

verus! {

/// `str::to_lowercase` (Unicode lowercase mapping of the whole string).
pub uninterp spec fn unicode_lower(s: Seq<char>) -> Seq<char>;

/// `str::to_uppercase` (Unicode uppercase mapping of the whole string).
pub uninterp spec fn unicode_upper(s: Seq<char>) -> Seq<char>;

/// `char::is_alphanumeric` (Unicode Alphabetic or Numeric).
pub uninterp spec fn unicode_alnum(c: char) -> bool;

/// The characters of `char::to_uppercase`.
pub uninterp spec fn char_upper(c: char) -> Seq<char>;

/// The characters of `char::to_lowercase`.
pub uninterp spec fn char_lower(c: char) -> Seq<char>;

/// What `Regex::new` says of a pattern: `None` when it compiles, else the
/// error's message.
pub uninterp spec fn regex_error(pattern: Seq<char>) -> Option<Seq<char>>;

/// `Regex::replace_all` of a compiled pattern on a text with a replacement.
pub uninterp spec fn regex_replaced(pattern: Seq<char>, hay: Seq<char>, rep: Seq<char>) -> Seq<char>;

/// `str::to_lowercase`; claims its result is the named mapping of `s`.
#[verifier::external_body]
pub(crate) fn lower_string(s: &str) -> (r: String)
    ensures
        r@ == unicode_lower(s@),
{
    s.to_lowercase()
}

/// `str::to_uppercase`; claims its result is the named mapping of `s`.
#[verifier::external_body]
fn upper_string(s: &str) -> (r: String)
    ensures
        r@ == unicode_upper(s@),
{
    s.to_uppercase()
}

/// `char::is_alphanumeric`.
#[verifier::external_body]
fn is_alnum(c: char) -> (r: bool)
    ensures
        r == unicode_alnum(c),
{
    c.is_alphanumeric()
}

/// `char::to_uppercase`, collected.
#[verifier::external_body]
fn upper_char(c: char) -> (r: String)
    ensures
        r@ == char_upper(c),
{
    c.to_uppercase().collect()
}

/// `char::to_lowercase`, collected.
#[verifier::external_body]
fn lower_char(c: char) -> (r: String)
    ensures
        r@ == char_lower(c),
{
    c.to_lowercase().collect()
}

/// `Regex::new(find)` then `replace_all(hay, rep)` from the regex crate:
/// an error with `Regex::new`'s message when the pattern does not compile,
/// else the replaced text. Both are named, not stated.
#[verifier::external_body]
fn regex_replace_all(find: &str, hay: &str, rep: &str) -> (r: Result<String, String>)
    ensures
        r matches Err(e) ==> regex_error(find@) == Some(e@),
        r matches Ok(s) ==> regex_error(find@) is None && s@ == regex_replaced(find@, hay@, rep@),
{
    match regex::Regex::new(find) {
        Ok(re) => Ok(re.replace_all(hay, rep).into_owned()),
        Err(e) => Err(e.to_string()),
    }
}

/// Title Case: each run of alphanumeric characters starts upper-case and
/// goes on lower-case; other characters stay and start a new word.
pub open spec fn title_case(s: Seq<char>) -> Seq<char> {
    title_from(s, true)
}

pub open spec fn title_from(s: Seq<char>, new_word: bool) -> Seq<char>
    decreases s.len(),
{
    if s.len() == 0 {
        Seq::empty()
    } else if unicode_alnum(s[0]) {
        (if new_word { char_upper(s[0]) } else { char_lower(s[0]) }) + title_from(s.drop_first(), false)
    } else {
        seq![s[0]] + title_from(s.drop_first(), true)
    }
}

/// The case change of mode 1 (lower), 2 (upper) or 3 (title); any other
/// mode keeps the text.
pub open spec fn case_spec(s: Seq<char>, mode: usize) -> Seq<char> {
    if mode == 1 {
        unicode_lower(s)
    } else if mode == 2 {
        unicode_upper(s)
    } else if mode == 3 {
        title_case(s)
    } else {
        s
    }
}

/// Applies a case change.
pub fn apply_case(s: &str, mode: usize) -> (r: String)
    ensures
        r@ == case_spec(s@, mode),
{
    if mode == 1 {
        lower_string(s)
    } else if mode == 2 {
        upper_string(s)
    } else if mode == 3 {
        let v = chars_of(s);
        let mut out = String::new();
        let mut new_word = true;
        let mut i: usize = 0;
        assert(v@.skip(0) =~= v@);
        while i < v.len()
            invariant
                i <= v.len(),
                v@ == s@,
                title_case(s@) == out@ + title_from(v@.skip(i as int), new_word),
            decreases v.len() - i,
        {
            let ch = v[i];
            let ghost rest = v@.skip(i as int);
            assert(rest[0] == ch);
            assert(rest.drop_first() =~= v@.skip(i + 1));
            let ghost before = out@;
            if is_alnum(ch) {
                let piece = if new_word { upper_char(ch) } else { lower_char(ch) };
                out.append(piece.as_str());
                new_word = false;
            } else {
                push_char(&mut out, ch);
                new_word = true;
            }
            i += 1;
        }
        assert(v@.skip(v.len() as int) =~= Seq::<char>::empty());
        assert(out@ =~= out@ + Seq::<char>::empty());
        out
    } else {
        owned(s)
    }
}

/// `str::replace` of a non-empty pattern: every match, left to right and
/// not overlapping, replaced.
pub open spec fn replace_spec(s: Seq<char>, p: Seq<char>, r: Seq<char>) -> Seq<char>
    decreases s.len(),
{
    if p.len() == 0 || s.len() < p.len() {
        s
    } else if s.take(p.len() as int) == p {
        r + replace_spec(s.skip(p.len() as int), p, r)
    } else {
        seq![s[0]] + replace_spec(s.drop_first(), p, r)
    }
}

/// Replaces every occurrence of the non-empty `p` in `s` by `r`.
pub fn replace_str(s: &str, p: &str, r: &str) -> (out: String)
    requires
        p@.len() > 0,
    ensures
        out@ == replace_spec(s@, p@, r@),
{
    let v = chars_of(s);
    let pv = chars_of(p);
    let mut out = String::new();
    let mut i: usize = 0;
    assert(v@.skip(0) =~= v@);
    while i < v.len()
        invariant
            i <= v.len(),
            v@ == s@,
            pv@ == p@,
            pv@.len() > 0,
            replace_spec(s@, p@, r@) == out@ + replace_spec(v@.skip(i as int), p@, r@),
        decreases v.len() - i,
    {
        let ghost rest = v@.skip(i as int);
        let ghost before = out@;
        let mut m: bool = v.len() - i >= pv.len();
        let mut k: usize = 0;
        if m {
            while k < pv.len() && v[i + k] == pv[k]
                invariant
                    k <= pv.len(),
                    i + pv.len() <= v.len(),
                    forall|x: int| 0 <= x < k ==> v@[i + x] == pv@[x],
                decreases pv.len() - k,
            {
                k += 1;
            }
            if k < pv.len() {
                m = false;
                assert(rest.take(pv.len() as int)[k as int] != pv@[k as int]);
            } else {
                assert(rest.take(pv.len() as int) =~= pv@);
            }
        }
        if m {
            out.append(r);
            assert(rest.skip(pv.len() as int) =~= v@.skip(i + pv.len()));
            i = i + pv.len();
            assert(out@ + replace_spec(v@.skip(i as int), p@, r@) =~= before + (r@ + replace_spec(rest.skip(pv.len() as int), p@, r@)));
        } else {
            push_char(&mut out, v[i]);
            assert(rest.drop_first() =~= v@.skip(i + 1));
            assert(rest[0] == v@[i as int]);
            i = i + 1;
            assert(out@ + replace_spec(v@.skip(i as int), p@, r@) =~= before + (seq![rest[0]] + replace_spec(rest.drop_first(), p@, r@)));
        }
    }
    assert(replace_spec(v@.skip(i as int), p@, r@) =~= Seq::<char>::empty());
    assert(out@ =~= out@ + Seq::<char>::empty());
    out
}

/// Stem and extension as batch rename splits a name: at the last dot when
/// it is not the first character.
pub open spec fn batch_split(n: Seq<char>) -> (Seq<char>, Seq<char>) {
    let d = last_dot(n);
    if d > 0 { (n.take(d), n.subrange(d + 1, n.len() as int)) } else { (n, Seq::empty()) }
}

/// The pattern with its tokens filled in, in this order: `<name>`, `<ext>`,
/// `<#>`, `<##>` and `<###>` (the counter plain, and zero-padded to two
/// and three digits).
pub open spec fn filled(pattern: Seq<char>, stem: Seq<char>, ext: Seq<char>, counter: u32) -> Seq<char> {
    let c = decimal_spec(counter as nat);
    replace_spec(
        replace_spec(
            replace_spec(
                replace_spec(replace_spec(pattern, "<name>"@, stem), "<ext>"@, ext),
                "<#>"@,
                c,
            ),
            "<##>"@,
            zero_pad(c, 2),
        ),
        "<###>"@,
        zero_pad(c, 3),
    )
}

/// The new name of one file: the filled pattern, the find/replace applied
/// (a pattern that is not a valid regular expression is an error), the
/// case changed, and the old extension put back when the pattern has no
/// `<ext>`.
pub open spec fn batch_name_spec(original: Seq<char>, pattern: Seq<char>, find: Seq<char>, replace: Seq<char>, use_regex: bool, case: usize, counter: u32) -> Result<Seq<char>, Seq<char>> {
    let (stem, ext) = batch_split(original);
    let name = filled(pattern, stem, ext, counter);
    let found: Result<Seq<char>, Seq<char>> = if find.len() == 0 {
        Ok(name)
    } else if use_regex {
        match regex_error(find) {
            Some(e) => Err(e),
            None => Ok(regex_replaced(find, name, replace)),
        }
    } else {
        Ok(replace_spec(name, find, replace))
    };
    match found {
        Err(e) => Err(e),
        Ok(n) => {
            let cased = case_spec(n, case);
            Ok(if ext.len() > 0 && !has_sub(pattern, "<ext>"@) { cased + seq!['.'] + ext } else { cased })
        },
    }
}

fn padded(d: &String, width: usize) -> (r: String)
    ensures
        r@ == zero_pad(d@, width as nat),
{
    let n = chars_of(d.as_str()).len();
    let mut s = String::new();
    let mut k: usize = n;
    while k < width
        invariant
            n <= k <= width || (k == n && n >= width),
            s@ == Seq::new((k - n) as nat, |i: int| '0'),
        decreases width - k,
    {
        push_char(&mut s, '0');
        k += 1;
        assert(s@ =~= Seq::new((k - n) as nat, |i: int| '0'));
    }
    s.append(d.as_str());
    proof {
        if n >= width {
            assert(s@ =~= d@);
        }
    }
    s
}

/// The new name of one file under the batch-rename settings.
pub fn batch_new_name(original: &str, pattern: &str, find: &str, replace: &str, use_regex: bool, case: usize, counter: u32) -> (r: Result<String, String>)
    ensures
        match r {
            Ok(s) => batch_name_spec(original@, pattern@, find@, replace@, use_regex, case, counter) == Ok::<Seq<char>, Seq<char>>(s@),
            Err(e) => batch_name_spec(original@, pattern@, find@, replace@, use_regex, case, counter) == Err::<Seq<char>, Seq<char>>(e@),
        },
{
    let v = chars_of(original);
    let (stem, ext) = match last_dot_exec(&v) {
        Some(d) if d > 0 => {
            assert(v@.subrange(0, d as int) =~= v@.take(d as int));
            (string_of(&v, 0, d), string_of(&v, d + 1, v.len()))
        },
        _ => (owned(original), String::new()),
    };
    let c = decimal(counter as u64);
    let c2 = padded(&c, 2);
    let c3 = padded(&c, 3);
    proof {
        reveal_strlit("<name>");
        reveal_strlit("<ext>");
        reveal_strlit("<#>");
        reveal_strlit("<##>");
        reveal_strlit("<###>");
    }
    let n1 = replace_str(pattern, "<name>", stem.as_str());
    let n2 = replace_str(n1.as_str(), "<ext>", ext.as_str());
    let n3 = replace_str(n2.as_str(), "<#>", c.as_str());
    let n4 = replace_str(n3.as_str(), "<##>", c2.as_str());
    let mut name = replace_str(n4.as_str(), "<###>", c3.as_str());
    if !find.is_empty() {
        if use_regex {
            match regex_replace_all(find, name.as_str(), replace) {
                Ok(s) => {
                    name = s;
                },
                Err(e) => {
                    return Err(e);
                },
            }
        } else {
            name = replace_str(name.as_str(), find, replace);
        }
    }
    let ghost sp = batch_split(original@);
    assert(stem@ == sp.0 && ext@ == sp.1);
    assert(n1@ == replace_spec(pattern@, "<name>"@, stem@));
    assert(c2@ == zero_pad(decimal_spec(counter as nat), 2));
    assert(name@ == filled(pattern@, stem@, ext@, counter) || find@.len() > 0);
    let mut out = apply_case(name.as_str(), case);
    let ev = chars_of(ext.as_str());
    if ev.len() > 0 && !contains_chars(&chars_of(pattern), &chars_of("<ext>")) {
        push_char(&mut out, '.');
        out.append(ext.as_str());
    }
    proof {
        let f = filled(pattern@, stem@, ext@, counter);
        if find@.len() == 0 {
            assert(name@ == f);
        } else if use_regex {
            assert(name@ == regex_replaced(find@, f, replace@));
        } else {
            assert(name@ == replace_spec(f, find@, replace@));
        }
        let cased = case_spec(name@, case);
        assert(ext@.len() > 0 && !has_sub(pattern@, "<ext>"@) ==> out@ == cased + seq!['.'] + ext@);
        assert(!(ext@.len() > 0 && !has_sub(pattern@, "<ext>"@)) ==> out@ == cased);
        if find@.len() > 0 && use_regex {
            assert(regex_error(find@) is None);
        }
    }
    Ok(out)
}

/// The renames a batch makes: for each item, in order, with counter
/// `counter_start + i`, a rename to its new name in the same folder when
/// the name could be made, differs from the old one and is not empty, and
/// the item has a folder.
pub open spec fn batch_ops_spec(items: Seq<Seq<char>>, pattern: Seq<char>, find: Seq<char>, replace: Seq<char>, use_regex: bool, case: usize, counter_start: u32) -> Seq<OpV>
    decreases items.len(),
{
    if items.len() == 0 {
        Seq::empty()
    } else {
        let prev = batch_ops_spec(items.drop_last(), pattern, find, replace, use_regex, case, counter_start);
        let item = items.last();
        let orig = match file_name_spec(item) {
            Some(n) => n,
            None => Seq::empty(),
        };
        let counter = (counter_start + items.len() - 1) as u32;
        match batch_name_spec(orig, pattern, find, replace, use_regex, case, counter) {
            Ok(new_name) => if new_name != orig && new_name.len() > 0 && parent_spec(item) is Some {
                prev.push(OpV::Rename { from: item, to: join_spec(parent_spec(item).unwrap(), new_name) })
            } else {
                prev
            },
            Err(_) => prev,
        }
    }
}

/// A batch is its first part followed by the rest, the rest numbered on
/// from where the first part stopped: the counter goes up by one per item.
pub proof fn law_batch_counter_runs_on(a: Seq<Seq<char>>, b: Seq<Seq<char>>, pattern: Seq<char>, find: Seq<char>, replace: Seq<char>, use_regex: bool, case: usize, counter_start: u32)
    requires
        counter_start + a.len() + b.len() <= u32::MAX + 1,
    ensures
        batch_ops_spec(a + b, pattern, find, replace, use_regex, case, counter_start)
            == batch_ops_spec(a, pattern, find, replace, use_regex, case, counter_start)
                + batch_ops_spec(b, pattern, find, replace, use_regex, case, (counter_start + a.len()) as u32),
    decreases b.len(),
{
    if b.len() == 0 {
        assert(a + b =~= a);
        assert(batch_ops_spec(a, pattern, find, replace, use_regex, case, counter_start) + Seq::<OpV>::empty()
            =~= batch_ops_spec(a, pattern, find, replace, use_regex, case, counter_start));
    } else {
        assert((a + b).drop_last() =~= a + b.drop_last());
        assert((a + b).last() == b.last());
        law_batch_counter_runs_on(a, b.drop_last(), pattern, find, replace, use_regex, case, counter_start);
        let c2 = (counter_start + a.len()) as u32;
        assert((counter_start + (a + b).len() - 1) as u32 == (c2 + b.len() - 1) as u32);
        let p1 = batch_ops_spec(a, pattern, find, replace, use_regex, case, counter_start);
        let p2 = batch_ops_spec(b.drop_last(), pattern, find, replace, use_regex, case, c2);
        assert forall|o: OpV| (p1 + p2).push(o) =~= p1 + p2.push(o) by {}
    }
}

/// The `i`-th item of a batch is renamed as it would be alone with the
/// counter `counter_start + i`: the batch is the items before it, then that
/// item's own rename, then the items after it.
pub proof fn law_batch_item_counter(items: Seq<Seq<char>>, i: int, pattern: Seq<char>, find: Seq<char>, replace: Seq<char>, use_regex: bool, case: usize, counter_start: u32)
    requires
        0 <= i < items.len(),
        counter_start + items.len() <= u32::MAX + 1,
    ensures
        batch_ops_spec(items, pattern, find, replace, use_regex, case, counter_start)
            == batch_ops_spec(items.take(i), pattern, find, replace, use_regex, case, counter_start)
                + batch_ops_spec(seq![items[i]], pattern, find, replace, use_regex, case, (counter_start + i) as u32)
                + batch_ops_spec(items.skip(i + 1), pattern, find, replace, use_regex, case, (counter_start + i + 1) as u32),
        batch_ops_spec(seq![items[i]], pattern, find, replace, use_regex, case, (counter_start + i) as u32)
            == match batch_name_spec(
                match file_name_spec(items[i]) { Some(n) => n, None => Seq::empty() },
                pattern, find, replace, use_regex, case, (counter_start + i) as u32,
            ) {
                Ok(new_name) => if new_name != (match file_name_spec(items[i]) { Some(n) => n, None => Seq::empty() })
                    && new_name.len() > 0 && parent_spec(items[i]) is Some {
                    seq![OpV::Rename { from: items[i], to: join_spec(parent_spec(items[i]).unwrap(), new_name) }]
                } else {
                    Seq::empty()
                },
                Err(_) => Seq::empty(),
            },
{
    let t = items.take(i);
    let rest = items.skip(i);
    assert(items =~= t + rest);
    law_batch_counter_runs_on(t, rest, pattern, find, replace, use_regex, case, counter_start);
    assert(rest =~= seq![items[i]] + items.skip(i + 1));
    law_batch_counter_runs_on(seq![items[i]], items.skip(i + 1), pattern, find, replace, use_regex, case, (counter_start + i) as u32);
    let x = items[i];
    let c = (counter_start + i) as u32;
    let one = seq![x];
    assert(one.drop_last() =~= Seq::<Seq<char>>::empty());
    assert(one.last() == x);
    assert(batch_ops_spec(one.drop_last(), pattern, find, replace, use_regex, case, c) == Seq::<OpV>::empty());
    assert((c + one.len() - 1) as u32 == c);
    let orig = match file_name_spec(x) { Some(n) => n, None => Seq::empty() };
    match batch_name_spec(orig, pattern, find, replace, use_regex, case, c) {
        Ok(new_name) => {
            if new_name != orig && new_name.len() > 0 && parent_spec(x) is Some {
                let op = OpV::Rename { from: x, to: join_spec(parent_spec(x).unwrap(), new_name) };
                assert(Seq::<OpV>::empty().push(op) =~= seq![op]);
            }
        },
        Err(_) => {},
    }
}

/// The rename operations of a batch rename.
pub fn batch_rename_ops(items: &Vec<String>, pattern: &str, find: &str, replace: &str, use_regex: bool, case: usize, counter_start: u32) -> (r: Vec<Operation>)
    requires
        counter_start + items@.len() <= u32::MAX + 1,
    ensures
        ops_view(r@) == batch_ops_spec(items.deep_view(), pattern@, find@, replace@, use_regex, case, counter_start),
{
    let ghost iv = items.deep_view();
    let mut ops: Vec<Operation> = Vec::new();
    let mut i: usize = 0;
    assert(iv.take(0) =~= Seq::<Seq<char>>::empty());
    while i < items.len()
        invariant
            i <= items.len(),
            iv == items.deep_view(),
            counter_start + items@.len() <= u32::MAX + 1,
            ops_view(ops@) == batch_ops_spec(iv.take(i as int), pattern@, find@, replace@, use_regex, case, counter_start),
        decreases items.len() - i,
    {
        assert(iv.take(i + 1).drop_last() =~= iv.take(i as int));
        assert(iv.take(i + 1).last() == items@[i as int]@);
        let item = items[i].as_str();
        let orig = match file_name(item) {
            Some(n) => n,
            None => String::new(),
        };
        let counter: u32 = counter_start + i as u32;
        match batch_new_name(orig.as_str(), pattern, find, replace, use_regex, case, counter) {
            Ok(new_name) => {
                let differs = !crate::paths::chars_eq(&chars_of(new_name.as_str()), &chars_of(orig.as_str()));
                if differs && !new_name.as_str().is_empty() {
                    match parent(item) {
                        Some(par) => {
                            let to = join(par.as_str(), new_name.as_str());
                            let ghost before = ops_view(ops@);
                            let op = Operation::Rename { from: items[i].clone(), to };
                            ops.push(op);
                            assert(ops_view(ops@) =~= before.push(op@));
                        },
                        None => {},
                    }
                }
            },
            Err(_) => {},
        }
        i += 1;
    }
    assert(iv.take(items.len() as int) =~= iv);
    ops
}

} // verus!
