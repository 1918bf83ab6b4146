//! Everything-style path queries: space-separated terms are AND, `|` is OR,
//! `!` is NOT, `*`/`?` are wildcards, `/` and `\` are equivalent, and quotes
//! group a phrase. Matching is case-insensitive (ASCII) against a full path.
use vstd::prelude::*;
use vstd::utf8::*;
use crate::text::{is_ws, lower, has_sub, push_char, chars_of, contains_chars, is_whitespace, ascii_lower};
use crate::wildcard::{star_free, wild, wild_from, wildcard_match};

verus! {

/// A compiled query: an AND of OR-groups.
#[derive(Clone, Debug)]
pub struct Query {
    clauses: Vec<Clause>,
}

#[derive(Clone, Debug)]
struct Clause {
    alts: Vec<Term>,
}

#[derive(Clone, Debug)]
enum Term {
    Include(Atom),
    Exclude(Atom),
}

#[derive(Clone, Debug)]
enum Atom {
    /// Lowercased, slashes normalized to `/`.
    Substring(String),
    /// Lowercased glob bytes (`*` / `?`).
    Wildcard(Vec<u8>),
}

/// What an atom tests.
pub enum AtomV {
    Sub(Seq<char>),
    Glob(Seq<u8>),
}

/// One alternative of a clause.
pub struct TermV {
    pub exclude: bool,
    pub atom: AtomV,
}

spec fn atom_view(a: Atom) -> AtomV {
    match a {
        Atom::Substring(s) => AtomV::Sub(s@),
        Atom::Wildcard(p) => AtomV::Glob(p@),
    }
}

spec fn term_view(t: Term) -> TermV {
    match t {
        Term::Include(a) => TermV { exclude: false, atom: atom_view(a) },
        Term::Exclude(a) => TermV { exclude: true, atom: atom_view(a) },
    }
}

spec fn clause_view(c: Clause) -> Seq<TermV> {
    c.alts@.map_values(|t: Term| term_view(t))
}

impl Query {
    pub closed spec fn view_clauses(&self) -> Seq<Seq<TermV>> {
        self.clauses@.map_values(|c: Clause| clause_view(c))
    }
}

// ------------------------------------------------------------------ parsing

/// Lowercase (ASCII) and turn `\` into `/`.
pub open spec fn norm_char(c: char) -> char {
    if c == '\\' { '/' } else { lower(c) }
}

pub open spec fn normalize(s: Seq<char>) -> Seq<char> {
    s.map_values(|c: char| norm_char(c))
}

/// Tokenizer state: finished tokens, the token being built, inside quotes.
pub struct TokState {
    pub out: Seq<Seq<char>>,
    pub cur: Seq<char>,
    pub quoted: bool,
}

pub open spec fn tok_step(st: TokState, c: char) -> TokState {
    if c == '"' {
        TokState { out: st.out, cur: st.cur, quoted: !st.quoted }
    } else if is_ws(c) && !st.quoted {
        if st.cur.len() > 0 {
            TokState { out: st.out.push(st.cur), cur: Seq::empty(), quoted: st.quoted }
        } else {
            st
        }
    } else {
        TokState { out: st.out, cur: st.cur.push(c), quoted: st.quoted }
    }
}

pub open spec fn tok_init() -> TokState {
    TokState { out: Seq::empty(), cur: Seq::empty(), quoted: false }
}

/// Split at whitespace outside double quotes; the quotes themselves are
/// dropped and empty tokens are skipped.
pub open spec fn tok_run(s: Seq<char>) -> TokState
    decreases s.len(),
{
    if s.len() == 0 { tok_init() } else { tok_step(tok_run(s.drop_last()), s.last()) }
}

pub open spec fn tokenize_spec(s: Seq<char>) -> Seq<Seq<char>> {
    let st = tok_run(s);
    if st.cur.len() > 0 { st.out.push(st.cur) } else { st.out }
}

/// The non-empty pieces of `s` between `|` separators, in order.
pub open spec fn bar_pieces(s: Seq<char>) -> Seq<Seq<char>>
    decreases s.len(),
{
    bar_pieces_from(s, Seq::empty())
}

/// Pieces of `s` when `cur` is the piece already started before it.
pub open spec fn bar_pieces_from(s: Seq<char>, cur: Seq<char>) -> Seq<Seq<char>>
    decreases s.len(),
{
    if s.len() == 0 {
        if cur.len() > 0 { seq![cur] } else { Seq::empty() }
    } else if s[0] == '|' {
        let rest = bar_pieces_from(s.drop_first(), Seq::empty());
        if cur.len() > 0 { seq![cur] + rest } else { rest }
    } else {
        bar_pieces_from(s.drop_first(), cur.push(s[0]))
    }
}

pub open spec fn has_wild(s: Seq<char>) -> bool {
    s.contains('*') || s.contains('?')
}

pub open spec fn atom_of(raw: Seq<char>) -> AtomV {
    let n = normalize(raw);
    if has_wild(n) { AtomV::Glob(encode_utf8(n)) } else { AtomV::Sub(n) }
}

pub open spec fn term_of(raw: Seq<char>) -> TermV {
    if raw.len() > 0 && raw[0] == '!' {
        TermV { exclude: true, atom: atom_of(raw.drop_first()) }
    } else {
        TermV { exclude: false, atom: atom_of(raw) }
    }
}

pub open spec fn clause_of(token: Seq<char>) -> Seq<TermV> {
    bar_pieces(token).map_values(|p: Seq<char>| term_of(p))
}

/// Clauses of the tokens, skipping tokens that hold no alternative.
pub open spec fn clauses_of(tokens: Seq<Seq<char>>) -> Seq<Seq<TermV>>
    decreases tokens.len(),
{
    if tokens.len() == 0 {
        Seq::empty()
    } else {
        let rest = clauses_of(tokens.drop_last());
        let c = clause_of(tokens.last());
        if tokens.last().len() > 0 && c.len() > 0 { rest.push(c) } else { rest }
    }
}

/// Every wildcard pattern of a query is valid UTF-8.
pub open spec fn globs_valid(q: Seq<Seq<TermV>>) -> bool {
    forall|i: int, j: int| 0 <= i < q.len() && 0 <= j < q[i].len() ==>
        ((#[trigger] q[i][j]).atom matches AtomV::Glob(p) ==> valid_utf8(p))
}

proof fn lemma_clauses_globs_valid(tokens: Seq<Seq<char>>)
    ensures
        globs_valid(clauses_of(tokens)),
    decreases tokens.len(),
{
    broadcast use vstd::utf8::encode_utf8_valid_utf8;
    if tokens.len() > 0 {
        lemma_clauses_globs_valid(tokens.drop_last());
        let rest = clauses_of(tokens.drop_last());
        let c = clause_of(tokens.last());
        let q = clauses_of(tokens);
        assert forall|i: int, j: int| 0 <= i < q.len() && 0 <= j < q[i].len() implies
            ((#[trigger] q[i][j]).atom matches AtomV::Glob(p) ==> valid_utf8(p)) by {
            if i < rest.len() {
                assert(q[i] == rest[i]);
            } else {
                assert(q[i] == c);
                let t = term_of(bar_pieces(tokens.last())[j]);
                assert(c[j] == t);
            }
        }
    }
}

proof fn lemma_norm_char(c: char)
    ensures
        norm_char(norm_char(c)) == norm_char(c),
        (norm_char(c) == '"') == (c == '"'),
        (norm_char(c) == '|') == (c == '|'),
        (norm_char(c) == '!') == (c == '!'),
        is_ws(norm_char(c)) == is_ws(c),
{
}

proof fn lemma_normalize_idem(s: Seq<char>)
    ensures
        normalize(normalize(s)) == s.map_values(|c: char| norm_char(c)),
{
    assert forall|k: int| 0 <= k < s.len() implies normalize(normalize(s))[k] == normalize(s)[k] by {
        lemma_norm_char(s[k]);
    }
    assert(normalize(normalize(s)) =~= normalize(s));
}

pub open spec fn norm_all(ts: Seq<Seq<char>>) -> Seq<Seq<char>> {
    ts.map_values(|t: Seq<char>| normalize(t))
}

proof fn lemma_tok_norm(s: Seq<char>)
    ensures
        tok_run(normalize(s)).out == norm_all(tok_run(s).out),
        tok_run(normalize(s)).cur == normalize(tok_run(s).cur),
        tok_run(normalize(s)).quoted == tok_run(s).quoted,
    decreases s.len(),
{
    if s.len() == 0 {
        assert(normalize(s) =~= Seq::<char>::empty());
        assert(norm_all(Seq::<Seq<char>>::empty()) =~= Seq::<Seq<char>>::empty());
        assert(normalize(Seq::<char>::empty()) =~= Seq::<char>::empty());
    } else {
        assert(normalize(s).drop_last() =~= normalize(s.drop_last()));
        assert(normalize(s).last() == norm_char(s.last()));
        lemma_tok_norm(s.drop_last());
        lemma_norm_char(s.last());
        let st = tok_run(s.drop_last());
        assert(norm_all(st.out.push(st.cur)) =~= norm_all(st.out).push(normalize(st.cur)));
        assert(normalize(st.cur.push(s.last())) =~= normalize(st.cur).push(norm_char(s.last())));
        assert(normalize(Seq::<char>::empty()) =~= Seq::<char>::empty());
    }
}

proof fn lemma_bar_norm(t: Seq<char>, cur: Seq<char>)
    ensures
        bar_pieces_from(normalize(t), normalize(cur)) == norm_all(bar_pieces_from(t, cur)),
    decreases t.len(),
{
    if t.len() == 0 {
        assert(normalize(t) =~= Seq::<char>::empty());
        assert(norm_all(seq![cur]) =~= seq![normalize(cur)]);
        assert(norm_all(Seq::<Seq<char>>::empty()) =~= Seq::<Seq<char>>::empty());
    } else {
        lemma_norm_char(t[0]);
        assert(normalize(t)[0] == norm_char(t[0]));
        assert(normalize(t).drop_first() =~= normalize(t.drop_first()));
        if t[0] == '|' {
            assert(normalize(Seq::<char>::empty()) =~= Seq::<char>::empty());
            lemma_bar_norm(t.drop_first(), Seq::empty());
            let rest = bar_pieces_from(t.drop_first(), Seq::empty());
            assert(norm_all(seq![cur] + rest) =~= seq![normalize(cur)] + norm_all(rest));
        } else {
            assert(normalize(cur.push(t[0])) =~= normalize(cur).push(norm_char(t[0])));
            lemma_bar_norm(t.drop_first(), cur.push(t[0]));
        }
    }
}

proof fn lemma_term_norm(p: Seq<char>)
    ensures
        term_of(normalize(p)) == term_of(p),
{
    lemma_normalize_idem(p);
    if p.len() > 0 {
        lemma_norm_char(p[0]);
        assert(normalize(p)[0] == norm_char(p[0]));
        assert(normalize(p).drop_first() =~= normalize(p.drop_first()));
        lemma_normalize_idem(p.drop_first());
    }
}

proof fn lemma_clause_norm(t: Seq<char>)
    ensures
        clause_of(normalize(t)) == clause_of(t),
{
    assert(normalize(Seq::<char>::empty()) =~= Seq::<char>::empty());
    lemma_bar_norm(t, Seq::empty());
    let bp = bar_pieces(t);
    assert forall|k: int| 0 <= k < bp.len() implies term_of(norm_all(bp)[k]) == term_of(bp[k]) by {
        lemma_term_norm(bp[k]);
    }
    assert(clause_of(normalize(t)) =~= clause_of(t));
}

proof fn lemma_clauses_norm(ts: Seq<Seq<char>>)
    ensures
        clauses_of(norm_all(ts)) == clauses_of(ts),
    decreases ts.len(),
{
    if ts.len() > 0 {
        assert(norm_all(ts).drop_last() =~= norm_all(ts.drop_last()));
        assert(norm_all(ts).last() == normalize(ts.last()));
        lemma_clauses_norm(ts.drop_last());
        lemma_clause_norm(ts.last());
    }
}

/// ASCII case and the direction of slashes never change what a query text
/// compiles to: matching ignores case and takes `\` for `/`.
pub proof fn law_parse_ignores_case_and_slashes(input: Seq<char>)
    ensures
        parse_spec(normalize(input)) == parse_spec(input),
{
    lemma_tok_norm(input);
    let st = tok_run(input);
    assert(norm_all(st.out.push(st.cur)) =~= norm_all(st.out).push(normalize(st.cur)));
    assert(tokenize_spec(normalize(input)) == norm_all(tokenize_spec(input)));
    lemma_clauses_norm(tokenize_spec(input));
}

proof fn lemma_tok_plain(s: Seq<char>)
    requires
        forall|i: int| 0 <= i < s.len() ==> s[i] != '"' && !is_ws(#[trigger] s[i]),
    ensures
        tok_run(s).out == Seq::<Seq<char>>::empty(),
        tok_run(s).cur == s,
        !tok_run(s).quoted,
    decreases s.len(),
{
    if s.len() == 0 {
        assert(s =~= Seq::<char>::empty());
    } else {
        assert forall|i: int| 0 <= i < s.drop_last().len() implies s.drop_last()[i] != '"' && !is_ws(#[trigger] s.drop_last()[i]) by {
            assert(s.drop_last()[i] == s[i]);
        }
        lemma_tok_plain(s.drop_last());
        assert(s.drop_last().push(s.last()) =~= s);
    }
}

proof fn lemma_bar_plain(s: Seq<char>, cur: Seq<char>)
    requires
        forall|i: int| 0 <= i < s.len() ==> #[trigger] s[i] != '|',
        cur.len() + s.len() > 0,
    ensures
        bar_pieces_from(s, cur) == seq![cur + s],
    decreases s.len(),
{
    if s.len() == 0 {
        assert(cur + s =~= cur);
    } else {
        assert(s[0] != '|');
        assert forall|i: int| 0 <= i < s.drop_first().len() implies #[trigger] s.drop_first()[i] != '|' by {
            assert(s.drop_first()[i] == s[i + 1]);
        }
        lemma_bar_plain(s.drop_first(), cur.push(s[0]));
        assert(cur.push(s[0]) + s.drop_first() =~= cur + s);
    }
}

/// Where `pp` has `?` the bytes of `tt` are one ASCII character, and
/// elsewhere the characters agree: the UTF-8 encodings then have the same
/// length and agree at every byte that is not a `?`.
proof fn lemma_encodings_agree(pp: Seq<char>, tt: Seq<char>)
    requires
        pp.len() == tt.len(),
        forall|i: int| 0 <= i < pp.len() ==>
            (#[trigger] pp[i] == '?' ==> (tt[i] as u32) < 128) && (pp[i] != '?' ==> pp[i] == tt[i]),
    ensures
        encode_utf8(pp).len() == encode_utf8(tt).len(),
        forall|j: int| 0 <= j < encode_utf8(pp).len() ==>
            #[trigger] encode_utf8(pp)[j] == 63u8 || encode_utf8(pp)[j] == encode_utf8(tt)[j],
    decreases pp.len(),
{
    if pp.len() > 0 {
        let (rp, rt) = (pp.drop_first(), tt.drop_first());
        assert forall|i: int| 0 <= i < rp.len() implies
            (#[trigger] rp[i] == '?' ==> (rt[i] as u32) < 128) && (rp[i] != '?' ==> rp[i] == rt[i]) by {
            assert(rp[i] == pp[i + 1] && rt[i] == tt[i + 1]);
        }
        lemma_encodings_agree(rp, rt);
        let hp = encode_scalar(pp[0] as u32);
        let ht = encode_scalar(tt[0] as u32);
        assert(pp[0] == '?' ==> (tt[0] as u32) < 128);
        if pp[0] == '?' {
            assert(('?' as u32) == 63u32);
            assert((63u32 & 0x7Fu32) as u8 == 63u8) by (bit_vector);
            assert(hp =~= seq![63u8]);
            assert(ht.len() == 1);
        } else {
            assert(pp[0] == tt[0]);
        }
        let ep = encode_utf8(pp);
        let et = encode_utf8(tt);
        assert(ep == hp + encode_utf8(rp));
        assert(et == ht + encode_utf8(rt));
        assert forall|j: int| 0 <= j < ep.len() implies #[trigger] ep[j] == 63u8 || ep[j] == et[j] by {
            if j < hp.len() {
            } else {
                assert(ep[j] == encode_utf8(rp)[j - hp.len()]);
                assert(et[j] == encode_utf8(rt)[j - ht.len()]);
            }
        }
    }
}

proof fn lemma_wild_steps(pat: Seq<u8>, text: Seq<u8>, p: int)
    requires
        pat.len() == text.len(),
        0 <= p <= pat.len(),
        forall|j: int| p <= j < pat.len() ==> #[trigger] pat[j] == 63u8 || pat[j] == text[j],
    ensures
        wild_from(pat, text, p, p, false, 0, 0),
    decreases pat.len() - p,
{
    if p < pat.len() {
        assert(pat[p] == 63u8 || pat[p] == text[p]);
        lemma_wild_steps(pat, text, p + 1);
    }
}

proof fn lemma_norm_ascii(c: char)
    ensures
        (norm_char(c) == '?') == (c == '?'),
        (c as u32) < 128 ==> (norm_char(c) as u32) < 128,
{
}

/// `?` stands for any one character: a query that is one plain word (no
/// space, quote, `|` or leading `!`) holding `?` matches every text of the
/// same length that agrees with it, ignoring case and slash direction, at
/// each other position and has an ASCII character at each `?`.
pub proof fn law_question_mark_matches_one_char(p: Seq<char>, n: Seq<char>)
    requires
        p.len() > 0,
        p[0] != '!',
        p.contains('?'),
        forall|i: int| 0 <= i < p.len() ==> #[trigger] p[i] != '"' && p[i] != '|' && !is_ws(p[i]),
        n.len() == p.len(),
        forall|i: int| 0 <= i < p.len() ==>
            (#[trigger] p[i] == '?' ==> (n[i] as u32) < 128) && (p[i] != '?' ==> norm_char(n[i]) == norm_char(p[i])),
    ensures
        query_holds(parse_spec(p), normalize(n)),
{
    lemma_tok_plain(p);
    assert(tokenize_spec(p) =~= seq![p]);
    assert forall|i: int| 0 <= i < p.len() implies #[trigger] p[i] != '|' by {}
    lemma_bar_plain(p, Seq::empty());
    assert(Seq::<char>::empty() + p =~= p);
    assert(bar_pieces(p) == seq![p]);
    assert(clause_of(p) =~= seq![term_of(p)]);
    let ts = seq![p];
    assert(ts.drop_last() =~= Seq::<Seq<char>>::empty());
    assert(ts.last() == p);
    assert(clauses_of(ts.drop_last()) == Seq::<Seq<TermV>>::empty());
    assert(clause_of(p).len() == 1);
    assert(clauses_of(ts) == Seq::<Seq<TermV>>::empty().push(clause_of(p)));
    assert(parse_spec(p) =~= seq![seq![term_of(p)]]);
    let np = normalize(p);
    let nn = normalize(n);
    let k = choose|k: int| 0 <= k < p.len() && p[k] == '?';
    lemma_norm_ascii(p[k]);
    assert(np[k] == '?');
    assert(has_wild(np));
    assert forall|i: int| 0 <= i < np.len() implies
        (#[trigger] np[i] == '?' ==> (nn[i] as u32) < 128) && (np[i] != '?' ==> np[i] == nn[i]) by {
        lemma_norm_ascii(p[i]);
        lemma_norm_ascii(n[i]);
        assert(p[i] == '?' ==> (n[i] as u32) < 128);
    }
    lemma_encodings_agree(np, nn);
    lemma_wild_steps(encode_utf8(np), encode_utf8(nn), 0);
    let q = parse_spec(p);
    assert(term_holds(q[0][0], nn));
    assert(clause_holds(q[0], nn));
}

/// The query that a text compiles to.
pub open spec fn parse_spec(input: Seq<char>) -> Seq<Seq<TermV>> {
    clauses_of(tokenize_spec(input))
}

// ----------------------------------------------------------------- matching

/// A substring atom holds where the normalized text contains it; a wildcard
/// atom runs the matcher over the text's UTF-8 bytes (for a text without
/// `*` that is `glob`, see `wildcard_match`).
pub open spec fn atom_holds(a: AtomV, norm: Seq<char>) -> bool {
    match a {
        AtomV::Sub(s) => has_sub(norm, s),
        AtomV::Glob(p) => wild(p, encode_utf8(norm)),
    }
}

pub open spec fn term_holds(t: TermV, norm: Seq<char>) -> bool {
    if t.exclude { !atom_holds(t.atom, norm) } else { atom_holds(t.atom, norm) }
}

pub open spec fn clause_holds(c: Seq<TermV>, norm: Seq<char>) -> bool {
    exists|k: int| 0 <= k < c.len() && term_holds(#[trigger] c[k], norm)
}

/// Every clause has an alternative that holds of the normalized path.
pub open spec fn query_holds(q: Seq<Seq<TermV>>, norm: Seq<char>) -> bool {
    forall|i: int| 0 <= i < q.len() ==> clause_holds(#[trigger] q[i], norm)
}

// --------------------------------------------------------------------- exec

/// Lowercase (ASCII) and turn `\` into `/`.
pub fn normalize_chars(s: &Vec<char>) -> (r: Vec<char>)
    ensures
        r@ == normalize(s@),
{
    let mut out: Vec<char> = Vec::new();
    let mut i: usize = 0;
    while i < s.len()
        invariant
            i <= s.len(),
            out@ == normalize(s@.take(i as int)),
        decreases s.len() - i,
    {
        let c = s[i];
        let n = if c == '\\' { '/' } else { ascii_lower(c) };
        out.push(n);
        assert(normalize(s@.take(i + 1)) =~= normalize(s@.take(i as int)).push(norm_char(s@[i as int])));
        i += 1;
    }
    assert(s@.take(s@.len() as int) =~= s@);
    out
}

/// Splits a text into tokens at whitespace outside double quotes.
pub fn tokenize(input: &str) -> (r: Vec<String>)
    ensures
        r@.map_values(|t: String| t@) == tokenize_spec(input@),
{
    let chars = chars_of(input);
    let mut out: Vec<String> = Vec::new();
    let mut cur = String::new();
    let mut quoted = false;
    let mut i: usize = 0;
    while i < chars.len()
        invariant
            i <= chars.len(),
            chars@ == input@,
            ({
                let st = tok_run(chars@.take(i as int));
                &&& st.out == out@.map_values(|t: String| t@)
                &&& st.cur == cur@
                &&& st.quoted == quoted
            }),
        decreases chars.len() - i,
    {
        let c = chars[i];
        proof {
            assert(chars@.take(i + 1).drop_last() =~= chars@.take(i as int));
        }
        if c == '"' {
            quoted = !quoted;
        } else if is_whitespace(c) && !quoted {
            if !cur.as_str().is_empty() {
                let t = cur;
                cur = String::new();
                let ghost old_out = out@;
                out.push(t);
                assert(out@.map_values(|t: String| t@) =~= old_out.map_values(|t: String| t@).push(t@));
            }
        } else {
            push_char(&mut cur, c);
        }
        i += 1;
    }
    assert(chars@.take(chars@.len() as int) =~= chars@);
    if !cur.as_str().is_empty() {
        let ghost old_out = out@;
        out.push(cur);
        assert(out@.map_values(|t: String| t@) =~= old_out.map_values(|t: String| t@).push(cur@));
    }
    out
}


proof fn lemma_scalar_no_star(c: char)
    requires
        c != '*',
    ensures
        star_free(encode_scalar(c as u32)),
{
    let v: u32 = c as u32;
    assert(v != 42u32);
    assert(v <= 0x7f && v != 42u32 ==> ((v & 0x7f) as u8) != 42u8) by (bit_vector);
    assert(forall|y: u8| #![auto] (0xC0u8 | y) != 42u8) by (bit_vector);
    assert(forall|y: u8| #![auto] (0xE0u8 | y) != 42u8) by (bit_vector);
    assert(forall|y: u8| #![auto] (0xF0u8 | y) != 42u8) by (bit_vector);
    assert(forall|y: u8| #![auto] (0x80u8 | y) != 42u8) by (bit_vector);
}

/// The UTF-8 bytes of a text without `*` hold no `*` byte.
pub proof fn lemma_encode_star_free(s: Seq<char>)
    requires
        !s.contains('*'),
    ensures
        star_free(encode_utf8(s)),
    decreases s.len(),
{
    if s.len() > 0 {
        assert(s[0] != '*') by {
            assert(s[0] == s[0]);
        }
        assert(!s.drop_first().contains('*')) by {
            if s.drop_first().contains('*') {
                let k = choose|k: int| 0 <= k < s.drop_first().len() && s.drop_first()[k] == '*';
                assert(s[k + 1] == '*');
            }
        }
        lemma_encode_star_free(s.drop_first());
        lemma_scalar_no_star(s[0]);
        let a = encode_scalar(s[0] as u32);
        let b = encode_utf8(s.drop_first());
        assert(encode_utf8(s) == a + b);
        assert forall|k: int| 0 <= k < (a + b).len() implies (a + b)[k] != 42u8 by {
            if k >= a.len() {
                assert((a + b)[k] == b[k - a.len()]);
            }
        }
    }
}

fn parse_atom(raw: &Vec<char>, lo: usize) -> (r: Atom)
    requires
        lo <= raw.len(),
    ensures
        atom_view(r) == atom_of(raw@.skip(lo as int)),
{
    let mut body: Vec<char> = Vec::new();
    let mut i: usize = lo;
    while i < raw.len()
        invariant
            lo <= i <= raw.len(),
            body@ == raw@.subrange(lo as int, i as int),
        decreases raw.len() - i,
    {
        body.push(raw[i]);
        i += 1;
        assert(body@ =~= raw@.subrange(lo as int, i as int));
    }
    assert(body@ =~= raw@.skip(lo as int));
    let norm = normalize_chars(&body);
    let mut wild = false;
    let mut k: usize = 0;
    while k < norm.len()
        invariant
            k <= norm.len(),
            wild == (exists|j: int| 0 <= j < k && (norm@[j] == '*' || norm@[j] == '?')),
        decreases norm.len() - k,
    {
        if norm[k] == '*' || norm[k] == '?' {
            wild = true;
        }
        k += 1;
    }
    proof {
        if wild {
            let j = choose|j: int| 0 <= j < norm@.len() && (norm@[j] == '*' || norm@[j] == '?');
            assert(norm@.contains(norm@[j]));
        }
        if has_wild(norm@) {
            if norm@.contains('*') {
                let j = choose|j: int| 0 <= j < norm@.len() && norm@[j] == '*';
                assert(norm@[j] == '*');
            } else {
                let j = choose|j: int| 0 <= j < norm@.len() && norm@[j] == '?';
                assert(norm@[j] == '?');
            }
        }
    }
    let text = crate::text::string_from_chars(&norm);
    if wild {
        let bytes = vstd::slice::slice_to_vec(text.as_str().as_bytes());
        Atom::Wildcard(bytes)
    } else {
        Atom::Substring(text)
    }
}

fn parse_term(raw: &Vec<char>) -> (r: Term)
    ensures
        term_view(r) == term_of(raw@),
{
    if raw.len() > 0 && raw[0] == '!' {
        assert(raw@.skip(1) =~= raw@.drop_first());
        Term::Exclude(parse_atom(raw, 1))
    } else {
        assert(raw@.skip(0) =~= raw@);
        Term::Include(parse_atom(raw, 0))
    }
}

/// The alternatives of one token (its `|`-separated non-empty pieces).
fn parse_clause(token: &Vec<char>) -> (r: Vec<Term>)
    ensures
        r@.map_values(|t: Term| term_view(t)) == clause_of(token@),
{
    let mut alts: Vec<Term> = Vec::new();
    let mut cur: Vec<char> = Vec::new();
    let mut i: usize = 0;
    let ghost mut done: Seq<Seq<char>> = Seq::empty();
    assert(token@.skip(0) =~= token@);
    while i < token.len()
        invariant
            i <= token.len(),
            bar_pieces(token@) == done + bar_pieces_from(token@.skip(i as int), cur@),
            alts@.map_values(|t: Term| term_view(t)) == done.map_values(|p: Seq<char>| term_of(p)),
        decreases token.len() - i,
    {
        let c = token[i];
        let ghost rest = token@.skip(i as int);
        assert(rest[0] == c);
        assert(rest.drop_first() =~= token@.skip(i + 1));
        if c == '|' {
            if cur.len() > 0 {
                let t = parse_term(&cur);
                let ghost old = alts@;
                alts.push(t);
                proof {
                    assert(alts@.map_values(|t: Term| term_view(t)) =~= old.map_values(|t: Term| term_view(t)).push(term_view(t)));
                    assert(done.push(cur@).map_values(|p: Seq<char>| term_of(p)) =~= done.map_values(|p: Seq<char>| term_of(p)).push(term_of(cur@)));
                    assert(seq![cur@] + bar_pieces_from(token@.skip(i + 1), Seq::empty()) =~= seq![cur@] + bar_pieces_from(token@.skip(i + 1), Seq::empty()));
                    assert(done + (seq![cur@] + bar_pieces_from(token@.skip(i + 1), Seq::empty())) =~= done.push(cur@) + bar_pieces_from(token@.skip(i + 1), Seq::empty()));
                    done = done.push(cur@);
                }
            }
            cur = Vec::new();
        } else {
            cur.push(c);
        }
        i += 1;
    }
    proof {
        assert(token@.skip(i as int) =~= Seq::<char>::empty());
    }
    if cur.len() > 0 {
        let t = parse_term(&cur);
        let ghost old = alts@;
        alts.push(t);
        proof {
            assert(alts@.map_values(|t: Term| term_view(t)) =~= old.map_values(|t: Term| term_view(t)).push(term_view(t)));
            assert(done.push(cur@).map_values(|p: Seq<char>| term_of(p)) =~= done.map_values(|p: Seq<char>| term_of(p)).push(term_of(cur@)));
            assert(done + seq![cur@] =~= done.push(cur@));
            done = done.push(cur@);
        }
    } else {
        assert(done + Seq::<Seq<char>>::empty() =~= done);
    }
    alts
}

/// The suffix after a leading `*` when the rest holds no `*` or `?`.
pub open spec fn star_suffix(p: Seq<u8>) -> Option<Seq<u8>> {
    if p.len() > 0 && p[0] == 42u8 && !p.drop_first().contains(42u8) && !p.drop_first().contains(63u8) {
        Some(p.drop_first())
    } else {
        None
    }
}

/// A usable name suffix: non-empty, with no `*`, `?` or `/`.
pub open spec fn suffix_ok(s: Seq<u8>) -> bool {
    s.len() > 0 && !s.contains(42u8) && !s.contains(63u8) && !s.contains(47u8)
}

/// The suffix a single-alternative `*suffix` clause demands.
pub open spec fn clause_suffix(c: Seq<TermV>) -> Option<Seq<u8>> {
    if c.len() == 1 && !c[0].exclude {
        match c[0].atom {
            AtomV::Glob(p) => match star_suffix(p) {
                Some(s) => if suffix_ok(s) { Some(s) } else { None },
                None => None,
            },
            AtomV::Sub(_) => None,
        }
    } else {
        None
    }
}

/// The first clause (in order) that demands a name suffix.
pub open spec fn name_suffix(q: Seq<Seq<TermV>>) -> Option<Seq<u8>>
    decreases q.len(),
{
    if q.len() == 0 {
        None
    } else {
        match clause_suffix(q[0]) {
            Some(s) => Some(s),
            None => name_suffix(q.drop_first()),
        }
    }
}

/// What `String::from_utf8_lossy` makes of some bytes.
pub uninterp spec fn utf8_lossy(b: Seq<u8>) -> Seq<char>;

/// `String::from_utf8_lossy`: valid UTF-8 decodes unchanged; invalid
/// sequences become U+FFFD (the replacement is not described here).
#[verifier::external_body]
pub(crate) fn lossy_string(b: &[u8]) -> (r: String)
    ensures
        r@ == utf8_lossy(b@),
        valid_utf8(b@) ==> r@ == decode_utf8(b@),
{
    String::from_utf8_lossy(b).into_owned()
}

fn contains_byte(s: &[u8], lo: usize, b: u8) -> (r: bool)
    requires
        lo <= s.len(),
    ensures
        r == s@.skip(lo as int).contains(b),
{
    let mut i: usize = lo;
    while i < s.len()
        invariant
            lo <= i <= s.len(),
            forall|k: int| lo <= k < i ==> s@[k] != b,
        decreases s.len() - i,
    {
        if s[i] == b {
            assert(s@.skip(lo as int)[i - lo] == b);
            return true;
        }
        i += 1;
    }
    assert forall|k: int| 0 <= k < s@.skip(lo as int).len() implies s@.skip(lo as int)[k] != b by {
        assert(s@.skip(lo as int)[k] == s@[lo + k]);
    }
    false
}

impl Query {
    /// If `Some`, names that match must end with this lowercase suffix
    /// (from the first clause that is a lone `*suffix` pattern).
    pub fn required_name_suffix(&self) -> (r: Option<String>)
        ensures
            r is Some == name_suffix(self.view_clauses()) is Some,
            r matches Some(s) ==> s@ == utf8_lossy(name_suffix(self.view_clauses())->0),
            r matches Some(s) ==> (globs_valid(self.view_clauses()) ==> s@ == decode_utf8(name_suffix(self.view_clauses())->0)),
    {
        let ghost q = self.view_clauses();
        let mut i: usize = 0;
        assert(q.skip(0) =~= q);
        while i < self.clauses.len()
            invariant
                i <= self.clauses.len(),
                q == self.view_clauses(),
                q.len() == self.clauses.len(),
                name_suffix(q) == name_suffix(q.skip(i as int)),
            decreases self.clauses.len() - i,
        {
            let alts = &self.clauses[i].alts;
            let ghost c = q[i as int];
            assert(q.skip(i as int)[0] == c);
            assert(q.skip(i as int).drop_first() =~= q.skip(i + 1));
            assert(c == alts@.map_values(|t: Term| term_view(t)));
            if alts.len() == 1 {
                if let Term::Include(Atom::Wildcard(pat)) = &alts[0] {
                    let p = pat.as_slice();
                    if p.len() > 0 && p[0] == 42u8 && !contains_byte(p, 1, 42u8) && !contains_byte(p, 1, 63u8) {
                        assert(p@.skip(1) =~= p@.drop_first());
                        let ok = p.len() > 1 && !contains_byte(p, 1, 47u8);
                        if ok {
                            assert(p@.drop_first().len() > 0);
                            let v = vstd::slice::slice_subrange(p, 1, p.len());
                            assert(v@ =~= p@.drop_first());
                            proof {
                                if globs_valid(q) {
                                    assert(q[i as int][0] == c[0]);
                                    assert(valid_utf8(p@));
                                    assert(p@.subrange(1, p@.len() as int) =~= p@.drop_first());
                                }
                            }
                            return Some(lossy_string(v));
                        }
                    }
                }
            }
            i += 1;
        }
        assert(q.skip(i as int) =~= Seq::<Seq<TermV>>::empty());
        None
    }

    /// Compile a query text.
    pub fn parse(input: &str) -> (r: Query)
        ensures
            r.view_clauses() == parse_spec(input@),
            globs_valid(r.view_clauses()),
    {
        proof {
            lemma_clauses_globs_valid(tokenize_spec(input@));
        }
        let tokens = tokenize(input);
        let ghost tv = tokens@.map_values(|t: String| t@);
        let mut clauses: Vec<Clause> = Vec::new();
        let mut i: usize = 0;
        while i < tokens.len()
            invariant
                i <= tokens.len(),
                tv == tokens@.map_values(|t: String| t@),
                tv == tokenize_spec(input@),
                clauses@.map_values(|c: Clause| clause_view(c)) == clauses_of(tv.take(i as int)),
            decreases tokens.len() - i,
        {
            assert(tv.take(i + 1).drop_last() =~= tv.take(i as int));
            assert(tv.take(i + 1).last() == tokens@[i as int]@);
            let tok = chars_of(tokens[i].as_str());
            if tok.len() > 0 {
                let alts = parse_clause(&tok);
                if alts.len() > 0 {
                    let ghost old = clauses@;
                    let cl = Clause { alts };
                    clauses.push(cl);
                    assert(clauses@.map_values(|c: Clause| clause_view(c)) =~= old.map_values(|c: Clause| clause_view(c)).push(clause_view(cl)));
                }
            }
            i += 1;
        }
        assert(tv.take(tokens.len() as int) =~= tv);
        Query { clauses }
    }

    /// True when the query has no clause (it matches everything).
    pub fn is_empty(&self) -> (r: bool)
        ensures
            r == (self.view_clauses().len() == 0),
    {
        self.clauses.len() == 0
    }

    fn atom_matches(a: &Atom, norm: &Vec<char>, bytes: &[u8]) -> (r: bool)
        requires
            bytes@ == encode_utf8(norm@),
        ensures
            r == atom_holds(atom_view(*a), norm@),
    {
        match a {
            Atom::Substring(s) => {
                let sv = chars_of(s.as_str());
                contains_chars(norm, &sv)
            },
            Atom::Wildcard(p) => wildcard_match(p.as_slice(), bytes),
        }
    }

    /// True if `path` (a name or a full path) satisfies every clause.
    pub fn matches(&self, path: &str) -> (r: bool)
        ensures
            self.view_clauses().len() == 0 ==> r,
            r == query_holds(self.view_clauses(), normalize(path@)),
    {
        if self.clauses.len() == 0 {
            return true;
        }
        let raw = chars_of(path);
        let norm = normalize_chars(&raw);
        let text = crate::text::string_from_chars(&norm);
        let bytes = text.as_str().as_bytes();
        let ghost q = self.view_clauses();
        let mut i: usize = 0;
        while i < self.clauses.len()
            invariant
                i <= self.clauses.len(),
                q == self.view_clauses(),
                q.len() == self.clauses.len(),
                norm@ == normalize(path@),
                bytes@ == encode_utf8(norm@),
                forall|k: int| 0 <= k < i ==> clause_holds(#[trigger] q[k], norm@),
            decreases self.clauses.len() - i,
        {
            let alts = &self.clauses[i].alts;
            let ghost cq = q[i as int];
            assert(cq == clause_view(self.clauses@[i as int]));
            let mut any = false;
            let mut j: usize = 0;
            while j < alts.len()
                invariant
                    j <= alts.len(),
                    cq == alts@.map_values(|t: Term| term_view(t)),
                    norm@ == normalize(path@),
                    bytes@ == encode_utf8(norm@),
                    any == exists|k: int| 0 <= k < j && term_holds(#[trigger] cq[k], norm@),
                decreases alts.len() - j,
            {
                let hit = match &alts[j] {
                    Term::Include(a) => Self::atom_matches(a, &norm, bytes),
                    Term::Exclude(a) => !Self::atom_matches(a, &norm, bytes),
                };
                proof {
                    assert(cq[j as int] == term_view(alts@[j as int]));
                    assert(hit == term_holds(cq[j as int], norm@));
                }
                if hit {
                    any = true;
                }
                j += 1;
            }
            if !any {
                assert(!clause_holds(q[i as int], norm@));
                return false;
            }
            i += 1;
        }
        true
    }
}

} // verus!
