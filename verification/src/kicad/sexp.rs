//! The S-expression layer of the importers: tokens, the reader, and exact conversion of
//! decimal millimetres to nanometres.

use crate::coord::Nm;
use crate::geom::limits;
use crate::geom::limits::MAX_COORD;
use crate::text;
use crate::text::{cat, cat3, chars_of, debug_string, int_string, slice_string, str_eq};
use vstd::prelude::*;

verus! {

/// A node: an atom (bare or quoted) or a parenthesised list.
#[derive(Debug, PartialEq, Eq)]
pub enum Sexp {
    Atom(String),
    List(Vec<Sexp>),
}

/// A node as a value.
pub enum SexpV {
    Atom(Seq<char>),
    List(Seq<SexpV>),
}

/// The value of a node.
pub open spec fn node_view(s: Sexp) -> SexpV
    decreases s,
{
    match s {
        Sexp::Atom(a) => SexpV::Atom(a@),
        Sexp::List(v) => SexpV::List(
            Seq::new(
                v@.len(),
                |i: int|
                    if 0 <= i < v@.len() {
                        node_view(v@[i])
                    } else {
                        arbitrary()
                    },
            ),
        ),
    }
}

impl View for Sexp {
    type V = SexpV;

    open spec fn view(&self) -> SexpV {
        node_view(*self)
    }
}

/// The values of a list of nodes.
pub open spec fn node_views(v: Seq<Sexp>) -> Seq<SexpV> {
    Seq::new(v.len(), |i: int| v[i]@)
}

/// The value of a list is the list of the values.
pub proof fn list_view(v: Vec<Sexp>)
    ensures
        (Sexp::List(v))@ == SexpV::List(node_views(v@)),
{
    let a = (Sexp::List(v))@;
    assert(a->List_0 =~= node_views(v@));
}

/// A token.
#[derive(Debug, PartialEq, Eq)]
pub enum Tok {
    Open,
    Close,
    Atom(String),
}

/// A token as a value.
pub enum TokV {
    Open,
    Close,
    Atom(Seq<char>),
}

impl View for Tok {
    type V = TokV;

    open spec fn view(&self) -> TokV {
        match self {
            Tok::Open => TokV::Open,
            Tok::Close => TokV::Close,
            Tok::Atom(s) => TokV::Atom(s@),
        }
    }
}

/// The values of a list of tokens.
pub open spec fn tok_views(v: Seq<Tok>) -> Seq<TokV> {
    Seq::new(v.len(), |i: int| v[i]@)
}

// ---------------------------------------------------------------------------
// Tokens.
// ---------------------------------------------------------------------------

/// A character that ends a bare atom.
pub open spec fn ends_atom(c: char) -> bool {
    text::whitespace(c) || c == '(' || c == ')' || c == '"'
}

/// The end of the bare atom that runs through `i`.
pub open spec fn bare_end(s: Seq<char>, i: int) -> int
    decreases s.len() - i,
{
    if 0 <= i < s.len() && !ends_atom(s[i]) {
        bare_end(s, i + 1)
    } else {
        i
    }
}

/// The rest of a quoted atom from `i`, and the position behind its closing quote. A
/// backslash takes the next character as it is.
pub open spec fn quoted(s: Seq<char>, i: int) -> Result<(Seq<char>, int), Seq<char>>
    decreases s.len() - i,
{
    if i < 0 || i >= s.len() {
        Err("unterminated quoted string"@)
    } else if s[i] == '"' {
        Ok((Seq::empty(), i + 1))
    } else if s[i] == '\\' {
        if i + 1 >= s.len() {
            Err("trailing escape in quoted string"@)
        } else {
            match quoted(s, i + 2) {
                Ok((rest, j)) => Ok((seq![s[i + 1]] + rest, j)),
                Err(e) => Err(e),
            }
        }
    } else {
        match quoted(s, i + 1) {
            Ok((rest, j)) => Ok((seq![s[i]] + rest, j)),
            Err(e) => Err(e),
        }
    }
}

/// A token in front of the rest.
pub open spec fn ahead(t: TokV, rest: Result<Seq<TokV>, Seq<char>>) -> Result<
    Seq<TokV>,
    Seq<char>,
> {
    match rest {
        Ok(r) => Ok(seq![t] + r),
        Err(e) => Err(e),
    }
}

/// The tokens of the text from `i`.
pub open spec fn tokens(s: Seq<char>, i: int) -> Result<Seq<TokV>, Seq<char>>
    decreases s.len() - i,
{
    if i < 0 || i >= s.len() {
        Ok(Seq::empty())
    } else if s[i] == '(' {
        ahead(TokV::Open, tokens(s, i + 1))
    } else if s[i] == ')' {
        ahead(TokV::Close, tokens(s, i + 1))
    } else if s[i] == '"' {
        match quoted(s, i + 1) {
            Ok((a, j)) => if i < j <= s.len() {
                ahead(TokV::Atom(a), tokens(s, j))
            } else {
                Ok(Seq::empty())
            },
            Err(e) => Err(e),
        }
    } else if text::whitespace(s[i]) {
        tokens(s, i + 1)
    } else {
        let j = bare_end(s, i);
        if i < j <= s.len() {
            ahead(TokV::Atom(s.subrange(i, j)), tokens(s, j))
        } else {
            Ok(Seq::empty())
        }
    }
}

/// A bare atom ends within the text, behind its first character.
proof fn bare_end_bounds(s: Seq<char>, i: int)
    requires
        0 <= i <= s.len(),
    ensures
        i <= bare_end(s, i) <= s.len(),
        i < s.len() && !ends_atom(s[i]) ==> i < bare_end(s, i),
    decreases s.len() - i,
{
    if i < s.len() && !ends_atom(s[i]) {
        bare_end_bounds(s, i + 1);
    }
}

/// Tokens before the rest.
spec fn before_rest(done: Seq<TokV>, rest: Result<Seq<TokV>, Seq<char>>) -> Result<
    Seq<TokV>,
    Seq<char>,
> {
    match rest {
        Ok(r) => Ok(done + r),
        Err(e) => Err(e),
    }
}

proof fn one_more(done: Seq<TokV>, t: TokV, rest: Result<Seq<TokV>, Seq<char>>)
    ensures
        before_rest(done, ahead(t, rest)) == before_rest(done.push(t), rest),
{
    match rest {
        Ok(r) => {
            assert(done + (seq![t] + r) =~= done.push(t) + r);
        },
        Err(e) => {},
    }
}

spec fn quoted_after(done: Seq<char>, rest: Result<(Seq<char>, int), Seq<char>>) -> Result<
    (Seq<char>, int),
    Seq<char>,
> {
    match rest {
        Ok((r, j)) => Ok((done + r, j)),
        Err(e) => Err(e),
    }
}

/// A quoted atom and the position behind it.
fn read_quoted(cs: &Vec<char>, from: usize) -> (r: Result<(String, usize), String>)
    requires
        from <= cs.len(),
    ensures
        match (r, quoted(cs@, from as int)) {
            (Ok((a, j)), Ok((b, k))) => a@ == b && j == k && from < j <= cs.len(),
            (Err(e), Err(m)) => e@ == m,
            _ => false,
        },
{
    let mut out: Vec<char> = Vec::new();
    let mut i: usize = from;
    proof {
        match quoted(cs@, from as int) {
            Ok((b, k)) => {
                assert(Seq::<char>::empty() + b =~= b);
            },
            Err(e) => {},
        }
    }
    while i < cs.len()
        invariant
            from <= i <= cs.len(),
            quoted(cs@, from as int) == quoted_after(out@, quoted(cs@, i as int)),
        decreases cs.len() - i,
    {
        let c = cs[i];
        let ghost done = out@;
        if c == '"' {
            assert(done + Seq::<char>::empty() =~= done);
            return Ok((text::string_of(&out), i + 1));
        }
        if c == '\\' {
            if i + 1 >= cs.len() {
                return Err("trailing escape in quoted string".to_owned());
            }
            out.push(cs[i + 1]);
            proof {
                match quoted(cs@, i + 2) {
                    Ok((b, k)) => {
                        assert(done + (seq![cs@[i + 1]] + b) =~= out@ + b);
                    },
                    Err(e) => {},
                }
            }
            i += 2;
        } else {
            out.push(c);
            proof {
                match quoted(cs@, i + 1) {
                    Ok((b, k)) => {
                        assert(done + (seq![c] + b) =~= out@ + b);
                    },
                    Err(e) => {},
                }
            }
            i += 1;
        }
    }
    Err("unterminated quoted string".to_owned())
}

/// Split the text into tokens: whitespace separates atoms, parentheses stand alone, and a
/// quoted atom takes escapes.
pub fn tokenize(text: &str) -> (r: Result<Vec<Tok>, String>)
    ensures
        match (r, tokens(text@, 0)) {
            (Ok(t), Ok(w)) => tok_views(t@) == w,
            (Err(e), Err(m)) => e@ == m,
            _ => false,
        },
{
    let cs = chars_of(text);
    let ghost s = text@;
    let mut toks: Vec<Tok> = Vec::new();
    let mut i: usize = 0;
    proof {
        assert(tok_views(toks@) =~= Seq::empty());
        match tokens(s, 0) {
            Ok(w) => {
                assert(Seq::<TokV>::empty() + w =~= w);
            },
            Err(e) => {},
        }
    }
    while i < cs.len()
        invariant
            i <= cs.len(),
            cs@ == s,
            s == text@,
            tokens(s, 0) == before_rest(tok_views(toks@), tokens(s, i as int)),
        decreases cs.len() - i,
    {
        let c = cs[i];
        let ghost done = tok_views(toks@);
        if c == '(' {
            toks.push(Tok::Open);
            proof {
                assert(tok_views(toks@) =~= done.push(TokV::Open));
                one_more(done, TokV::Open, tokens(s, i + 1));
            }
            i += 1;
        } else if c == ')' {
            toks.push(Tok::Close);
            proof {
                assert(tok_views(toks@) =~= done.push(TokV::Close));
                one_more(done, TokV::Close, tokens(s, i + 1));
            }
            i += 1;
        } else if c == '"' {
            match read_quoted(&cs, i + 1) {
                Ok((a, j)) => {
                    let ghost t = TokV::Atom(a@);
                    toks.push(Tok::Atom(a));
                    proof {
                        assert(tok_views(toks@) =~= done.push(t));
                        one_more(done, t, tokens(s, j as int));
                    }
                    i = j;
                },
                Err(e) => {
                    return Err(e);
                },
            }
        } else if text::is_whitespace(c) {
            i += 1;
        } else {
            let mut j: usize = i;
            proof {
                bare_end_bounds(s, i as int);
            }
            while j < cs.len() && !(text::is_whitespace(cs[j]) || cs[j] == '(' || cs[j] == ')'
                || cs[j] == '"')
                invariant
                    i <= j <= cs.len(),
                    cs@ == s,
                    bare_end(s, i as int) == bare_end(s, j as int),
                decreases cs.len() - j,
            {
                j += 1;
            }
            let a = slice_string(&cs, i, j);
            let ghost t = TokV::Atom(a@);
            toks.push(Tok::Atom(a));
            proof {
                assert(tok_views(toks@) =~= done.push(t));
                one_more(done, t, tokens(s, j as int));
            }
            i = j;
        }
    }
    assert(tok_views(toks@) + Seq::<TokV>::empty() =~= tok_views(toks@));
    Ok(toks)
}

// ---------------------------------------------------------------------------
// The reader.
// ---------------------------------------------------------------------------

/// The node that starts at token `i`, and the position behind it.
pub open spec fn node_at(t: Seq<TokV>, i: int) -> Result<(SexpV, int), Seq<char>>
    decreases t.len() - i, 0int,
{
    if i < 0 || i >= t.len() {
        Err("unexpected end of input"@)
    } else {
        match t[i] {
            TokV::Open => match items_at(t, i + 1) {
                Ok((v, j)) => Ok((SexpV::List(v), j)),
                Err(e) => Err(e),
            },
            TokV::Close => Err("unexpected ')'"@),
            TokV::Atom(a) => Ok((SexpV::Atom(a), i + 1)),
        }
    }
}

/// The nodes from token `i` up to the closing parenthesis, and the position behind it.
pub open spec fn items_at(t: Seq<TokV>, i: int) -> Result<(Seq<SexpV>, int), Seq<char>>
    decreases t.len() - i, 1int,
{
    if i < 0 || i >= t.len() {
        Err("unterminated list (missing ')')"@)
    } else if t[i] == TokV::Close {
        Ok((Seq::empty(), i + 1))
    } else {
        match node_at(t, i) {
            Ok((x, j)) => if i < j <= t.len() {
                match items_at(t, j) {
                    Ok((rest, k)) => Ok((seq![x] + rest, k)),
                    Err(e) => Err(e),
                }
            } else {
                Ok((Seq::empty(), i + 1))
            },
            Err(e) => Err(e),
        }
    }
}

/// The single expression that the tokens are.
pub open spec fn expression(t: Seq<TokV>) -> Result<SexpV, Seq<char>> {
    if t.len() == 0 || t[0] != TokV::Open {
        Err("expected '(' at start"@)
    } else {
        match node_at(t, 0) {
            Err(e) => Err(e),
            Ok((x, j)) => if j != t.len() {
                Err("trailing tokens after top-level expression"@)
            } else {
                Ok(x)
            },
        }
    }
}

/// The expression a text is.
pub open spec fn parsed(s: Seq<char>) -> Result<SexpV, Seq<char>> {
    match tokens(s, 0) {
        Ok(t) => expression(t),
        Err(e) => Err(e),
    }
}

spec fn items_after(done: Seq<SexpV>, rest: Result<(Seq<SexpV>, int), Seq<char>>) -> Result<
    (Seq<SexpV>, int),
    Seq<char>,
> {
    match rest {
        Ok((r, j)) => Ok((done + r, j)),
        Err(e) => Err(e),
    }
}

fn read_node(toks: &Vec<Tok>, pos: usize) -> (r: Result<(Sexp, usize), String>)
    requires
        pos < toks.len(),
    ensures
        match (r, node_at(tok_views(toks@), pos as int)) {
            (Ok((x, j)), Ok((y, k))) => x@ == y && j == k && pos < j <= toks.len(),
            (Err(e), Err(m)) => e@ == m,
            _ => false,
        },
    decreases toks.len() - pos, 0nat,
{
    let ghost t = tok_views(toks@);
    assert(t[pos as int] == toks@[pos as int]@);
    match &toks[pos] {
        Tok::Open => match read_items(toks, pos + 1) {
            Ok((v, j)) => {
                proof {
                    list_view(v);
                }
                Ok((Sexp::List(v), j))
            },
            Err(e) => Err(e),
        },
        Tok::Close => Err("unexpected ')'".to_owned()),
        Tok::Atom(a) => Ok((Sexp::Atom(a.clone()), pos + 1)),
    }
}

fn read_items(toks: &Vec<Tok>, pos: usize) -> (r: Result<(Vec<Sexp>, usize), String>)
    requires
        pos <= toks.len(),
    ensures
        match (r, items_at(tok_views(toks@), pos as int)) {
            (Ok((v, j)), Ok((w, k))) => node_views(v@) == w && j == k && pos < j <= toks.len(),
            (Err(e), Err(m)) => e@ == m,
            _ => false,
        },
    decreases toks.len() - pos, 1nat,
{
    let ghost t = tok_views(toks@);
    let mut items: Vec<Sexp> = Vec::new();
    let mut i: usize = pos;
    proof {
        assert(node_views(items@) =~= Seq::empty());
        match items_at(t, pos as int) {
            Ok((w, k)) => {
                assert(Seq::<SexpV>::empty() + w =~= w);
            },
            Err(e) => {},
        }
    }
    while i < toks.len()
        invariant
            pos <= i <= toks.len(),
            t == tok_views(toks@),
            items_at(t, pos as int) == items_after(node_views(items@), items_at(t, i as int)),
        decreases toks.len() - i,
    {
        let ghost done = node_views(items@);
        assert(t[i as int] == toks@[i as int]@);
        let closing = match &toks[i] {
            Tok::Close => true,
            _ => false,
        };
        if closing {
            assert(done + Seq::<SexpV>::empty() =~= done);
            return Ok((items, i + 1));
        }
        match read_node(toks, i) {
            Ok((x, j)) => {
                let ghost y = x@;
                items.push(x);
                proof {
                    assert(node_views(items@) =~= done.push(y));
                    match items_at(t, j as int) {
                        Ok((rest, k)) => {
                            assert(done + (seq![y] + rest) =~= done.push(y) + rest);
                        },
                        Err(e) => {},
                    }
                }
                i = j;
            },
            Err(e) => {
                return Err(e);
            },
        }
    }
    Err("unterminated list (missing ')')".to_owned())
}

/// Read the single top-level expression.
pub fn read(toks: &Vec<Tok>) -> (r: Result<Sexp, String>)
    ensures
        match (r, expression(tok_views(toks@))) {
            (Ok(x), Ok(y)) => x@ == y,
            (Err(e), Err(m)) => e@ == m,
            _ => false,
        },
{
    let ghost t = tok_views(toks@);
    let opens = if toks.len() == 0 {
        false
    } else {
        assert(t[0] == toks@[0]@);
        match &toks[0] {
            Tok::Open => true,
            _ => false,
        }
    };
    if !opens {
        return Err("expected '(' at start".to_owned());
    }
    match read_node(toks, 0) {
        Ok((x, j)) => {
            if j != toks.len() {
                return Err("trailing tokens after top-level expression".to_owned());
            }
            Ok(x)
        },
        Err(e) => Err(e),
    }
}

/// Read the expression a text is.
pub fn parse(text: &str) -> (r: Result<Sexp, String>)
    ensures
        match (r, parsed(text@)) {
            (Ok(x), Ok(y)) => x@ == y,
            (Err(e), Err(m)) => e@ == m,
            _ => false,
        },
{
    match tokenize(text) {
        Ok(toks) => read(&toks),
        Err(e) => Err(e),
    }
}

// ---------------------------------------------------------------------------
// What a write gives back when read.
// ---------------------------------------------------------------------------

/// The tokens of the first `k` nodes, in order.
pub open spec fn written_items(v: Seq<SexpV>, k: nat) -> Seq<TokV>
    decreases v, k,
{
    if k == 0 || k > v.len() {
        Seq::empty()
    } else {
        written_items(v, (k - 1) as nat) + written(v[k - 1])
    }
}

/// The tokens of a node.
pub open spec fn written(x: SexpV) -> Seq<TokV>
    decreases x, 0nat,
{
    match x {
        SexpV::Atom(a) => seq![TokV::Atom(a)],
        SexpV::List(v) => seq![TokV::Open] + written_items(v, v.len()) + seq![TokV::Close],
    }
}

/// The tokens of nodes `from` and later.
spec fn written_tail(v: Seq<SexpV>, from: int) -> Seq<TokV>
    decreases v.len() - from,
{
    if from < 0 || from >= v.len() {
        Seq::empty()
    } else {
        written(v[from]) + written_tail(v, from + 1)
    }
}

proof fn tail_is_items(v: Seq<SexpV>, k: nat)
    requires
        k <= v.len(),
    ensures
        written_items(v, v.len()) == written_items(v, k) + written_tail(v, k as int),
    decreases v.len() - k,
{
    if k < v.len() {
        tail_is_items(v, k + 1);
        assert(written_items(v, k + 1) == written_items(v, k) + written(v[k as int]));
        assert(written_items(v, k) + written(v[k as int]) + written_tail(v, k as int + 1)
            =~= written_items(v, k) + (written(v[k as int]) + written_tail(v, k as int + 1)));
    } else {
        assert(written_items(v, k) + written_tail(v, k as int) =~= written_items(v, k));
    }
}

/// The tokens of a node, wherever they stand, are read as that node.
proof fn node_reads_back(t: Seq<TokV>, i: int, x: SexpV)
    requires
        0 <= i,
        i + written(x).len() <= t.len(),
        t.subrange(i, i + written(x).len()) == written(x),
    ensures
        node_at(t, i) == Ok::<(SexpV, int), Seq<char>>((x, i + written(x).len())),
        written(x).len() > 0,
    decreases x, 1nat, 0nat,
{
    let w = written(x);
    match x {
        SexpV::Atom(a) => {
            assert(t[i] == t.subrange(i, i + w.len())[0]);
        },
        SexpV::List(v) => {
            let items = written_items(v, v.len());
            tail_is_items(v, 0);
            assert(written_items(v, 0) + written_tail(v, 0) =~= written_tail(v, 0));
            assert(w.len() == items.len() + 2);
            assert(t[i] == t.subrange(i, i + w.len())[0]);
            assert(w[0] == TokV::Open);
            assert(t[i + w.len() - 1] == t.subrange(i, i + w.len())[w.len() - 1]);
            assert(w[w.len() - 1] == TokV::Close);
            assert forall|k: int| 0 <= k < items.len() implies t[i + 1 + k] == items[k] by {
                assert(t[i + 1 + k] == t.subrange(i, i + w.len())[1 + k]);
                assert(w[1 + k] == items[k]);
            }
            assert(t.subrange(i + 1, i + 1 + items.len()) =~= items);
            items_read_back(t, i + 1, x, v, 0);
            assert(v.skip(0) =~= v);
        },
    }
}

proof fn items_read_back(t: Seq<TokV>, i: int, x: SexpV, v: Seq<SexpV>, from: int)
    requires
        x == SexpV::List(v),
        0 <= i,
        0 <= from <= v.len(),
        i + written_tail(v, from).len() < t.len(),
        t.subrange(i, i + written_tail(v, from).len()) == written_tail(v, from),
        t[i + written_tail(v, from).len()] == TokV::Close,
    ensures
        items_at(t, i) == Ok::<(Seq<SexpV>, int), Seq<char>>(
            (v.skip(from), i + written_tail(v, from).len() + 1),
        ),
    decreases x, 0nat, v.len() - from,
{
    let w = written_tail(v, from);
    if from < v.len() {
        let y = v[from];
        let a = written(y);
        let b = written_tail(v, from + 1);
        assert(decreases_to!(x => y)) by {
            assert(decreases_to!(x => x->List_0));
            assert(decreases_to!(v => v[from]));
        }
        assert(w == a + b);
        assert(t.subrange(i, i + a.len()) =~= a) by {
            assert forall|k: int| 0 <= k < a.len() implies t[i + k] == a[k] by {
                assert(t[i + k] == t.subrange(i, i + w.len())[k]);
                assert(w[k] == a[k]);
            }
        }
        node_reads_back(t, i, y);
        assert(t[i] == a[0]) by {
            assert(t[i] == t.subrange(i, i + a.len())[0]);
        }
        assert(a[0] != TokV::Close);
        let j = i + a.len();
        assert(t.subrange(j, j + b.len()) =~= b) by {
            assert forall|k: int| 0 <= k < b.len() implies t[j + k] == b[k] by {
                assert(t[j + k] == t.subrange(i, i + w.len())[a.len() + k]);
                assert(w[a.len() + k] == b[k]);
            }
        }
        items_read_back(t, j, x, v, from + 1);
        assert(seq![y] + v.skip(from + 1) =~= v.skip(from));
    } else {
        assert(v.skip(from) =~= Seq::empty());
    }
}

/// A list written as tokens is read back as itself.
pub proof fn written_reads_back(v: Seq<SexpV>)
    ensures
        expression(written(SexpV::List(v))) == Ok::<SexpV, Seq<char>>(SexpV::List(v)),
{
    let x = SexpV::List(v);
    let w = written(x);
    assert(w.subrange(0, w.len() as int) =~= w);
    assert(w[0] == TokV::Open);
    node_reads_back(w, 0, x);
}

/// A string with its quotes and backslashes escaped, from `i`.
pub open spec fn escaped(a: Seq<char>) -> Seq<char>
    decreases a.len(),
{
    if a.len() == 0 {
        Seq::empty()
    } else if a[0] == '"' || a[0] == '\\' {
        seq!['\\', a[0]] + escaped(a.skip(1))
    } else {
        seq![a[0]] + escaped(a.skip(1))
    }
}

proof fn escaped_reads_back(s: Seq<char>, i: int, a: Seq<char>)
    requires
        0 <= i,
        i + escaped(a).len() < s.len(),
        s.subrange(i, i + escaped(a).len()) == escaped(a),
        s[i + escaped(a).len()] == '"',
    ensures
        quoted(s, i) == Ok::<(Seq<char>, int), Seq<char>>((a, i + escaped(a).len() + 1)),
    decreases a.len(),
{
    let w = escaped(a);
    if a.len() == 0 {
        assert(a =~= Seq::empty());
    } else {
        let rest = escaped(a.skip(1));
        assert(seq![a[0]] + a.skip(1) =~= a);
        let n: int = if a[0] == '"' || a[0] == '\\' {
            2
        } else {
            1
        };
        assert(w.len() == n + rest.len());
        assert forall|k: int| 0 <= k < w.len() implies s[i + k] == w[k] by {
            assert(s[i + k] == s.subrange(i, i + w.len())[k]);
        }
        assert(s[i] == w[0]);
        assert(s[i + n - 1] == w[n - 1]);
        assert(s.subrange(i + n, i + n + rest.len()) =~= rest) by {
            assert forall|k: int| 0 <= k < rest.len() implies s[i + n + k] == rest[k] by {
                assert(s[i + (n + k)] == w[n + k]);
                assert(w[n + k] == rest[k]);
            }
        }
        escaped_reads_back(s, i + n, a.skip(1));
    }
}

/// A string written in quotes, its quotes and backslashes escaped, is read back as one
/// atom of that string.
pub proof fn quoting_reads_back(a: Seq<char>)
    ensures
        tokens(seq!['"'] + escaped(a) + seq!['"'], 0) == Ok::<Seq<TokV>, Seq<char>>(
            seq![TokV::Atom(a)],
        ),
{
    let s = seq!['"'] + escaped(a) + seq!['"'];
    assert(s.subrange(1, 1int + escaped(a).len()) =~= escaped(a));
    assert(s[1int + escaped(a).len()] == '"');
    escaped_reads_back(s, 1, a);
    assert(tokens(s, s.len() as int) == Ok::<Seq<TokV>, Seq<char>>(Seq::empty()));
    assert(seq![TokV::Atom(a)] + Seq::<TokV>::empty() =~= seq![TokV::Atom(a)]);
}

// ---------------------------------------------------------------------------
// Looking into nodes.
// ---------------------------------------------------------------------------

/// The atom at position `i` of a list.
pub open spec fn atom_at(v: Seq<SexpV>, i: int) -> Option<Seq<char>> {
    if 0 <= i < v.len() {
        match v[i] {
            SexpV::Atom(a) => Some(a),
            SexpV::List(_) => None,
        }
    } else {
        None
    }
}

/// The list that `x` is, when its head is `head`.
pub open spec fn headed(x: SexpV, head: Seq<char>) -> Option<Seq<SexpV>> {
    match x {
        SexpV::List(v) => if atom_at(v, 0) == Some(head) {
            Some(v)
        } else {
            None
        },
        SexpV::Atom(_) => None,
    }
}

/// The first child of `v` that is a list of that head.
pub open spec fn child(v: Seq<SexpV>, head: Seq<char>) -> Option<Seq<SexpV>>
    decreases v.len(),
{
    if v.len() == 0 {
        None
    } else if headed(v[0], head) is Some {
        headed(v[0], head)
    } else {
        child(v.skip(1), head)
    }
}

/// The first argument of the first child of that head.
pub open spec fn child_atom(v: Seq<SexpV>, head: Seq<char>, i: int) -> Option<Seq<char>> {
    match child(v, head) {
        Some(l) => atom_at(l, i),
        None => None,
    }
}

/// An optional string slice as a value.
pub open spec fn opt_text(o: Option<&str>) -> Option<Seq<char>> {
    match o {
        Some(s) => Some(s@),
        None => None,
    }
}

impl Sexp {
    /// The atom that this is.
    pub fn as_atom(&self) -> (r: Option<&str>)
        ensures
            opt_text(r) == match self@ {
                SexpV::Atom(a) => Some(a),
                SexpV::List(_) => None,
            },
    {
        match self {
            Sexp::Atom(s) => Some(s.as_str()),
            Sexp::List(_) => None,
        }
    }

    /// The list that this is.
    pub fn as_list(&self) -> (r: Option<&Vec<Sexp>>)
        ensures
            match (r, self@) {
                (Some(v), SexpV::List(w)) => node_views(v@) == w,
                (None, SexpV::Atom(_)) => true,
                _ => false,
            },
    {
        match self {
            Sexp::List(v) => {
                assert(node_views(v@) =~= self@->List_0);
                Some(v)
            },
            Sexp::Atom(_) => None,
        }
    }

    /// The list that this is, when its head is `head`.
    pub fn list_headed(&self, head: &str) -> (r: Option<&Vec<Sexp>>)
        ensures
            match (r, headed(self@, head@)) {
                (Some(v), Some(w)) => node_views(v@) == w && v.len() > 0,
                (None, None) => true,
                _ => false,
            },
    {
        match self.as_list() {
            Some(v) => match nth_atom(v, 0) {
                Some(a) => if str_eq(a, head) {
                    Some(v)
                } else {
                    None
                },
                None => None,
            },
            None => None,
        }
    }
}

/// The atom at position `i` of a list.
pub fn nth_atom(v: &Vec<Sexp>, i: usize) -> (r: Option<&str>)
    ensures
        opt_text(r) == atom_at(node_views(v@), i as int),
{
    if i < v.len() {
        assert(node_views(v@)[i as int] == v@[i as int]@);
        v[i].as_atom()
    } else {
        None
    }
}

/// The first child of a list that is a list of that head.
pub fn find_child<'a>(v: &'a Vec<Sexp>, head: &str) -> (r: Option<&'a Vec<Sexp>>)
    ensures
        match (r, child(node_views(v@), head@)) {
            (Some(l), Some(w)) => node_views(l@) == w && l.len() > 0,
            (None, None) => true,
            _ => false,
        },
{
    let ghost w = node_views(v@);
    let mut i: usize = 0;
    assert(w.skip(0) =~= w);
    while i < v.len()
        invariant
            i <= v.len(),
            w == node_views(v@),
            child(w, head@) == child(w.skip(i as int), head@),
        decreases v.len() - i,
    {
        proof {
            assert(w.skip(i as int)[0] == w[i as int]);
            assert(w.skip(i as int).skip(1) =~= w.skip(i + 1));
        }
        if let Some(l) = v[i].list_headed(head) {
            return Some(l);
        }
        i += 1;
    }
    None
}

/// An argument of the first child of that head.
pub fn find_child_atom<'a>(v: &'a Vec<Sexp>, head: &str, i: usize) -> (r: Option<&'a str>)
    ensures
        opt_text(r) == child_atom(node_views(v@), head@, i as int),
{
    match find_child(v, head) {
        Some(l) => nth_atom(l, i),
        None => None,
    }
}

// ---------------------------------------------------------------------------
// Millimetres.
// ---------------------------------------------------------------------------

/// The text without leading whitespace.
pub open spec fn trim_start(s: Seq<char>) -> Seq<char>
    decreases s.len(),
{
    if s.len() > 0 && text::whitespace(s[0]) {
        trim_start(s.skip(1))
    } else {
        s
    }
}

/// The text without trailing whitespace.
pub open spec fn trim_end(s: Seq<char>) -> Seq<char>
    decreases s.len(),
{
    if s.len() > 0 && text::whitespace(s.last()) {
        trim_end(s.drop_last())
    } else {
        s
    }
}

/// The text without surrounding whitespace.
pub open spec fn trimmed(s: Seq<char>) -> Seq<char> {
    trim_end(trim_start(s))
}

/// Only ASCII digits.
pub open spec fn all_digits(s: Seq<char>) -> bool {
    forall|i: int| 0 <= i < s.len() ==> '0' <= #[trigger] s[i] && s[i] <= '9'
}

/// The number that decimal digits spell.
pub open spec fn digits_value(s: Seq<char>) -> int
    decreases s.len(),
{
    if s.len() == 0 {
        0
    } else {
        10 * digits_value(s.drop_last()) + (s.last() as int - 48)
    }
}

/// The digit at position `i`, zero behind the end.
pub open spec fn digit_at(s: Seq<char>, i: int) -> int {
    if i < s.len() {
        s[i] as int - 48
    } else {
        0
    }
}

/// The first six decimal places, as a number.
pub open spec fn six_places(f: Seq<char>) -> int {
    100_000 * digit_at(f, 0) + 10_000 * digit_at(f, 1) + 1_000 * digit_at(f, 2) + 100 * digit_at(
        f,
        3,
    ) + 10 * digit_at(f, 4) + digit_at(f, 5)
}

/// A decimal number of millimetres: its sign, and its digits before and after the point.
pub open spec fn decimal(s: Seq<char>) -> (bool, Seq<char>, Seq<char>) {
    let neg = s.len() > 0 && s[0] == '-';
    let body = if neg || (s.len() > 0 && s[0] == '+') {
        s.skip(1)
    } else {
        s
    };
    let dot = text::find_char(body, '.');
    if dot < body.len() {
        (neg, body.take(dot), body.skip(dot + 1))
    } else {
        (neg, body, Seq::empty())
    }
}

/// The whole nanometres of a decimal without its sign: the seventh place rounds.
pub open spec fn nanometres(int_part: Seq<char>, frac_part: Seq<char>) -> int {
    digits_value(int_part) * 1_000_000 + six_places(frac_part) + (if digit_at(frac_part, 6) >= 5 {
        1int
    } else {
        0
    })
}

/// The nanometres that a text in millimetres stands for, or why it stands for none.
pub open spec fn mm(s: Seq<char>) -> Result<int, Seq<char>> {
    let t = trimmed(s);
    let (neg, ip, fp) = decimal(t);
    let n = nanometres(ip, fp);
    let v = if neg {
        -n
    } else {
        n
    };
    if t.len() == 0 {
        Err("empty number"@)
    } else if ip.len() == 0 && fp.len() == 0 {
        Err("malformed number: "@ + text::debug_text(t))
    } else if !all_digits(ip) || !all_digits(fp) {
        Err("non-numeric coordinate: "@ + text::debug_text(t))
    } else if digits_value(ip) > i64::MAX {
        Err("integer overflow: "@ + text::debug_text(t))
    } else if digits_value(ip) * 1_000_000 + six_places(fp) > i64::MAX {
        Err("coordinate overflow: "@ + text::debug_text(t))
    } else if !limits::in_ingest(v) {
        Err(
            "coordinate "@ + text::int_text(v) + " nm exceeds the ±1000000000 nm (±1 m) range (issue 0018)"@,
        )
    } else {
        Ok(v)
    }
}

/// Digits spell a number that is not negative, and a longer one spells no less.
proof fn digits_grow(s: Seq<char>, k: int)
    requires
        all_digits(s),
        0 <= k <= s.len(),
    ensures
        0 <= digits_value(s.take(k)) <= digits_value(s),
    decreases s.len(),
{
    if k == s.len() {
        assert(s.take(k) =~= s);
        if s.len() > 0 {
            assert(all_digits(s.drop_last())) by {
                assert forall|i: int| 0 <= i < s.drop_last().len() implies '0'
                    <= #[trigger] s.drop_last()[i] && s.drop_last()[i] <= '9' by {
                    assert(s.drop_last()[i] == s[i]);
                }
            }
            digits_grow(s.drop_last(), s.len() - 1);
            assert(s.drop_last().take(s.len() - 1) =~= s.drop_last());
        }
    } else {
        assert(all_digits(s.drop_last())) by {
            assert forall|i: int| 0 <= i < s.drop_last().len() implies '0'
                <= #[trigger] s.drop_last()[i] && s.drop_last()[i] <= '9' by {
                assert(s.drop_last()[i] == s[i]);
            }
        }
        digits_grow(s.drop_last(), k);
        assert(s.drop_last().take(k) =~= s.take(k));
    }
}

/// A power of ten.
pub open spec fn pow10(n: nat) -> int
    decreases n,
{
    if n == 0 {
        1
    } else {
        10 * pow10((n - 1) as nat)
    }
}

/// The digits of two strings in a row.
proof fn digits_join(a: Seq<char>, b: Seq<char>)
    ensures
        digits_value(a + b) == digits_value(a) * pow10(b.len()) + digits_value(b),
    decreases b.len(),
{
    if b.len() == 0 {
        assert(a + b =~= a);
    } else {
        digits_join(a, b.drop_last());
        assert((a + b).drop_last() =~= a + b.drop_last());
        let x = digits_value(a);
        let p = pow10((b.len() - 1) as nat);
        assert(10 * (x * p) == x * (10 * p)) by (nonlinear_arith);
    }
}

/// Digits spell less than the next power of ten.
proof fn digits_below(s: Seq<char>)
    requires
        all_digits(s),
    ensures
        0 <= digits_value(s) < pow10(s.len()),
    decreases s.len(),
{
    if s.len() > 0 {
        assert(all_digits(s.drop_last())) by {
            assert forall|i: int| 0 <= i < s.drop_last().len() implies '0'
                <= #[trigger] s.drop_last()[i] && s.drop_last()[i] <= '9' by {
                assert(s.drop_last()[i] == s[i]);
            }
        }
        assert('0' <= s[s.len() - 1] && s[s.len() - 1] <= '9');
        digits_below(s.drop_last());
    }
}

proof fn one_more_digit(f: Seq<char>, k: int)
    requires
        0 <= k < f.len(),
    ensures
        digits_value(f.take(k + 1)) == 10 * digits_value(f.take(k)) + digit_at(f, k),
{
    assert(f.take(k + 1).drop_last() =~= f.take(k));
}

/// The six places are the digits themselves, padded with zeros.
proof fn places_are_digits(f: Seq<char>)
    ensures
        f.len() <= 6 ==> six_places(f) == digits_value(f) * pow10((6 - f.len()) as nat),
        f.len() > 6 ==> six_places(f) == digits_value(f.take(6)),
{
    reveal_with_fuel(pow10, 8);
    assert(f.take(f.len() as int) =~= f);
    assert(digits_value(f.take(0)) == 0);
    if f.len() > 0 {
        one_more_digit(f, 0);
    }
    if f.len() > 1 {
        one_more_digit(f, 1);
    }
    if f.len() > 2 {
        one_more_digit(f, 2);
    }
    if f.len() > 3 {
        one_more_digit(f, 3);
    }
    if f.len() > 4 {
        one_more_digit(f, 4);
    }
    if f.len() > 5 {
        one_more_digit(f, 5);
    }
    if f.len() <= 6 {
        let v = digits_value(f);
        let p = pow10((6 - f.len()) as nat);
        assert(f.len() == 0 ==> v * p == 1_000_000 * v) by (nonlinear_arith)
            requires
                f.len() == 0 ==> p == 1_000_000,
        ;
        assert(f.len() == 1 ==> v * p == 100_000 * v) by (nonlinear_arith)
            requires
                f.len() == 1 ==> p == 100_000,
        ;
        assert(f.len() == 2 ==> v * p == 10_000 * v) by (nonlinear_arith)
            requires
                f.len() == 2 ==> p == 10_000,
        ;
        assert(f.len() == 3 ==> v * p == 1_000 * v) by (nonlinear_arith)
            requires
                f.len() == 3 ==> p == 1_000,
        ;
        assert(f.len() == 4 ==> v * p == 100 * v) by (nonlinear_arith)
            requires
                f.len() == 4 ==> p == 100,
        ;
        assert(f.len() == 5 ==> v * p == 10 * v) by (nonlinear_arith)
            requires
                f.len() == 5 ==> p == 10,
        ;
        assert(f.len() == 6 ==> v * p == v) by (nonlinear_arith)
            requires
                f.len() == 6 ==> p == 1,
        ;
    }
}

proof fn pow10_join(a: nat, b: nat)
    ensures
        pow10(a + b) == pow10(a) * pow10(b),
    decreases a,
{
    if a > 0 {
        pow10_join((a - 1) as nat, b);
        let x = pow10((a - 1) as nat);
        let y = pow10(b);
        assert(10 * (x * y) == (10 * x) * y) by (nonlinear_arith);
    }
}

/// The nanometres of a decimal are the nearest whole number to a million times its value,
/// and the larger of two that are equally near: with `n` digits behind the point, the
/// difference is at least minus half a unit and less than half a unit.
pub proof fn nanometres_are_nearest(ip: Seq<char>, fp: Seq<char>)
    requires
        all_digits(ip),
        all_digits(fp),
    ensures
        -pow10(fp.len()) <= 2 * (1_000_000 * digits_value(ip + fp) - nanometres(ip, fp) * pow10(
            fp.len(),
        )) < pow10(fp.len()),
{
    let i = digits_value(ip);
    let f = digits_value(fp);
    let p = pow10(fp.len());
    let v = digits_value(ip + fp);
    let nm = nanometres(ip, fp);
    digits_join(ip, fp);
    places_are_digits(fp);
    digits_below(fp);
    assert(pow10(6) == 1_000_000) by {
        reveal_with_fuel(pow10, 8);
    }
    if fp.len() <= 6 {
        let q = pow10((6 - fp.len()) as nat);
        pow10_join((6 - fp.len()) as nat, fp.len());
        assert(1_000_000 * (i * p + f) == (i * 1_000_000 + f * q) * p) by (nonlinear_arith)
            requires
                q * p == 1_000_000,
        ;
    } else {
        let m = (fp.len() - 6) as nat;
        let head = fp.take(6);
        let tail = fp.skip(6);
        let q = pow10(m);
        let r = digits_value(tail);
        let t = digits_value(head);
        let up: int = if digit_at(fp, 6) >= 5 {
            1
        } else {
            0
        };
        assert(head + tail =~= fp);
        digits_join(head, tail);
        pow10_join(6, m);
        assert(all_digits(tail));
        let d = seq![tail[0]];
        let rest = tail.skip(1);
        assert(d + rest =~= tail);
        assert(all_digits(rest));
        digits_join(d, rest);
        digits_below(rest);
        assert(d.drop_last() =~= Seq::empty());
        assert(digits_value(d) == digit_at(fp, 6)) by {
            reveal_with_fuel(digits_value, 2);
            assert(tail[0] == fp[6]);
        }
        assert('0' <= fp[6] && fp[6] <= '9');
        let h = pow10(rest.len());
        assert(q == 10 * h);
        let g = digit_at(fp, 6);
        assert(-q <= 2 * (r - up * q) && 2 * (r - up * q) < q) by (nonlinear_arith)
            requires
                q == 10 * h,
                h > 0,
                r == g * h + digits_value(rest),
                0 <= digits_value(rest) < h,
                0 <= g <= 9,
                up == (if g >= 5 {
                    1int
                } else {
                    0
                }),
        ;
        assert(1_000_000 * (i * p + (t * q + r)) - (i * 1_000_000 + t + up) * p == 1_000_000 * (r
            - up * q)) by (nonlinear_arith)
            requires
                p == 1_000_000 * q,
        ;
    }
}

fn trim(cs: &Vec<char>) -> (r: (usize, usize))
    ensures
        r.0 <= r.1 <= cs.len(),
        cs@.subrange(r.0 as int, r.1 as int) == trimmed(cs@),
{
    let mut a: usize = 0;
    assert(cs@.skip(0) =~= cs@);
    while a < cs.len() && text::is_whitespace(cs[a])
        invariant
            a <= cs.len(),
            trim_start(cs@) == trim_start(cs@.skip(a as int)),
        decreases cs.len() - a,
    {
        assert(cs@.skip(a as int).skip(1) =~= cs@.skip(a + 1));
        a += 1;
    }
    let ghost s = cs@.skip(a as int);
    assert(trim_start(cs@) == s);
    let mut b: usize = cs.len();
    assert(cs@.subrange(a as int, b as int) =~= s);
    while b > a && text::is_whitespace(cs[b - 1])
        invariant
            a <= b <= cs.len(),
            trim_end(s) == trim_end(cs@.subrange(a as int, b as int)),
        decreases b - a,
    {
        assert(cs@.subrange(a as int, b as int).drop_last() =~= cs@.subrange(
            a as int,
            b - 1,
        ));
        b -= 1;
    }
    (a, b)
}

fn digits_ok(cs: &Vec<char>, from: usize, to: usize) -> (r: bool)
    requires
        from <= to <= cs.len(),
    ensures
        r == all_digits(cs@.subrange(from as int, to as int)),
{
    let ghost s = cs@.subrange(from as int, to as int);
    let mut i: usize = from;
    while i < to
        invariant
            from <= i <= to <= cs.len(),
            s == cs@.subrange(from as int, to as int),
            forall|j: int| 0 <= j < i - from ==> '0' <= #[trigger] s[j] && s[j] <= '9',
        decreases to - i,
    {
        assert(s[i - from] == cs@[i as int]);
        if !(cs[i] >= '0' && cs[i] <= '9') {
            return false;
        }
        i += 1;
    }
    true
}

/// The number the digits spell; `None` beyond the 64-bit range.
fn read_digits(cs: &Vec<char>, from: usize, to: usize) -> (r: Option<i64>)
    requires
        from <= to <= cs.len(),
        all_digits(cs@.subrange(from as int, to as int)),
    ensures
        match r {
            Some(v) => v == digits_value(cs@.subrange(from as int, to as int)),
            None => digits_value(cs@.subrange(from as int, to as int)) > i64::MAX,
        },
{
    let ghost s = cs@.subrange(from as int, to as int);
    let mut v: i64 = 0;
    let mut i: usize = from;
    assert(s.take(0) =~= Seq::empty());
    while i < to
        invariant
            from <= i <= to <= cs.len(),
            s == cs@.subrange(from as int, to as int),
            all_digits(s),
            v == digits_value(s.take(i - from)),
            v >= 0,
        decreases to - i,
    {
        let c: char = cs[i];
        assert(s[i - from] == c);
        let d: i128 = (c as u32 - 48) as i128;
        let w: i128 = v as i128 * 10 + d;
        proof {
            let t = s.take(i - from + 1);
            assert(t.drop_last() =~= s.take(i - from));
            assert(t.last() == c);
            assert(digits_value(t) == w);
            digits_grow(s, i - from + 1);
        }
        if w > 0x7fff_ffff_ffff_ffff {
            return None;
        }
        v = w as i64;
        i += 1;
    }
    assert(s.take(i - from) =~= s);
    Some(v)
}

fn place(cs: &Vec<char>, from: usize, to: usize, k: usize) -> (r: i64)
    requires
        from <= to <= cs.len(),
        k < 7,
        all_digits(cs@.subrange(from as int, to as int)),
    ensures
        r == digit_at(cs@.subrange(from as int, to as int), k as int),
        0 <= r <= 9,
{
    let ghost s = cs@.subrange(from as int, to as int);
    if k < to - from {
        let c: char = cs[from + k];
        assert(s[k as int] == c);
        (c as u32 - 48) as i64
    } else {
        0
    }
}

/// The sign of a number that stands from `a` to `b`, and where its digits start, where its
/// point is and where the digits behind the point start.
fn split_number(all: &Vec<char>, a: usize, b: usize) -> (r: (bool, usize, usize, usize))
    requires
        a < b <= all.len(),
    ensures
        a <= r.1 <= r.2 <= r.3 <= b,
        decimal(all@.subrange(a as int, b as int)) == (
            r.0,
            all@.subrange(r.1 as int, r.2 as int),
            all@.subrange(r.3 as int, b as int),
        ),
{
    let ghost t = all@.subrange(a as int, b as int);
    let first: char = all[a];
    assert(t[0] == first);
    let neg = first == '-';
    let from = if neg || first == '+' {
        a + 1
    } else {
        a
    };
    let ghost body = all@.subrange(from as int, b as int);
    assert(body =~= (if neg || first == '+' {
        t.skip(1)
    } else {
        t
    }));
    let mut dot: usize = from;
    proof {
        text::find_char_is_first(body, '.');
    }
    while dot < b && all[dot] != '.'
        invariant
            from <= dot <= b <= all.len(),
            body == all@.subrange(from as int, b as int),
            dot - from <= text::find_char(body, '.') <= body.len(),
            text::find_char(body, '.') < body.len() ==> body[text::find_char(body, '.')] == '.',
            forall|i: int| 0 <= i < text::find_char(body, '.') ==> body[i] != '.',
        decreases b - dot,
    {
        assert(body[dot - from] == all@[dot as int]);
        dot += 1;
    }
    let start = if dot < b {
        dot + 1
    } else {
        b
    };
    proof {
        if dot < b {
            assert(body[dot - from] == '.');
        }
        assert(text::find_char(body, '.') == dot - from);
        assert(decimal(t).1 =~= all@.subrange(from as int, dot as int));
        assert(decimal(t).2 =~= all@.subrange(start as int, b as int));
    }
    (neg, from, dot, start)
}

/// The first six decimal places, and whether the seventh rounds up.
fn read_places(all: &Vec<char>, start: usize, b: usize) -> (r: (i64, bool))
    requires
        start <= b <= all.len(),
        all_digits(all@.subrange(start as int, b as int)),
    ensures
        r.0 == six_places(all@.subrange(start as int, b as int)),
        0 <= r.0 <= 999_999,
        r.1 == (digit_at(all@.subrange(start as int, b as int), 6) >= 5),
{
    let d0 = place(all, start, b, 0);
    let d1 = place(all, start, b, 1);
    let d2 = place(all, start, b, 2);
    let d3 = place(all, start, b, 3);
    let d4 = place(all, start, b, 4);
    let d5 = place(all, start, b, 5);
    (
        100_000 * d0 + 10_000 * d1 + 1_000 * d2 + 100 * d3 + 10 * d4 + d5,
        place(all, start, b, 6) >= 5,
    )
}

/// A complaint that quotes the number.
fn complaint(what: &str, shown: &str) -> (r: String)
    ensures
        r@ == what@ + text::debug_text(shown@),
{
    let q = debug_string(shown);
    cat(what, q.as_str())
}

/// Convert decimal millimetres to whole nanometres, rounding half away from zero, without
/// any floating point. A coordinate beyond the ingest range is refused here.
pub fn mm_to_nm(s: &str) -> (r: Result<Nm, String>)
    ensures
        match (r, mm(s@)) {
            (Ok(v), Ok(w)) => v == w && limits::in_ingest(v as int),
            (Err(e), Err(m)) => e@ == m,
            _ => false,
        },
{
    let all = chars_of(s);
    let (a, b) = trim(&all);
    let ghost t = trimmed(s@);
    assert(t == all@.subrange(a as int, b as int));
    if a == b {
        return Err("empty number".to_owned());
    }
    let shown = slice_string(&all, a, b);
    let (neg, from, dot, start) = split_number(&all, a, b);
    let ghost ip = all@.subrange(from as int, dot as int);
    let ghost fp = all@.subrange(start as int, b as int);
    assert(decimal(t) == (neg, ip, fp));
    if dot == from && start == b {
        return Err(complaint("malformed number: ", shown.as_str()));
    }
    if !digits_ok(&all, from, dot) || !digits_ok(&all, start, b) {
        return Err(complaint("non-numeric coordinate: ", shown.as_str()));
    }
    let whole: i64 = match read_digits(&all, from, dot) {
        Some(v) => v,
        None => {
            return Err(complaint("integer overflow: ", shown.as_str()));
        },
    };
    proof {
        digits_grow(ip, 0);
    }
    let (frac6, up) = read_places(&all, start, b);
    let nm: i128 = whole as i128 * 1_000_000 + frac6 as i128;
    if nm > 0x7fff_ffff_ffff_ffff {
        return Err(complaint("coordinate overflow: ", shown.as_str()));
    }
    let size: i128 = if up {
        nm + 1
    } else {
        nm
    };
    assert(size == nanometres(ip, fp));
    let v: i128 = if neg {
        -size
    } else {
        size
    };
    if v > MAX_COORD as i128 || v < -(MAX_COORD as i128) {
        let n = int_string(v);
        return Err(
            cat3(
                "coordinate ",
                n.as_str(),
                " nm exceeds the ±1000000000 nm (±1 m) range (issue 0018)",
            ),
        );
    }
    Ok(v as i64)
}

} // verus!
