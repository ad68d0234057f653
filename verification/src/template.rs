//! The template language and its renderer.
//!
//! A template is literal text with two constructs:
//!  - `{field}` interpolates the row's value for `field`; a field that the
//!    row mapping lacks is a rendering error;
//!  - `{{- if field -}} ... {{- endif -}}` renders its body only when the row
//!    maps `field` to a non-empty value; the `-` markers strip the whitespace
//!    adjacent to each delimiter.  Conditional blocks do not nest.

use vstd::prelude::*;
use crate::mapping::RowMapping;
use crate::text::chars_to_string;
use crate::text::str_to_chars;

verus! {

/// The template text is malformed: an unterminated or empty interpolation,
/// a bad conditional delimiter, or an unmatched `if`/`endif`.
#[derive(Debug, Clone, Copy, PartialEq, Eq, Structural)]
pub struct TemplateError;

/// A row mapping lacks a field that rendering needs.
#[derive(Debug, Clone, Copy, PartialEq, Eq, Structural)]
pub struct RenderError;

/// Whitespace for the purposes of the trimming markers.
pub open spec fn is_space(c: char) -> bool {
    c == ' ' || c == '\t' || c == '\r' || c == '\n'
}

/// Characters allowed in a conditional's field name.
pub open spec fn is_name_char(c: char) -> bool {
    !is_space(c) && c != '-' && c != '{' && c != '}'
}

/// Characters allowed in an interpolation's field name.
pub open spec fn is_interp_char(c: char) -> bool {
    c != '{' && c != '}'
}

/// The first index at or after `i` that does not hold whitespace.
pub open spec fn spec_skip_ws(s: Seq<char>, i: int) -> int
    decreases s.len() - i,
{
    if i < 0 || i >= s.len() || !is_space(s[i]) {
        i
    } else {
        spec_skip_ws(s, i + 1)
    }
}

/// `t` without its trailing whitespace.
pub open spec fn spec_rtrim(t: Seq<char>) -> Seq<char>
    decreases t.len(),
{
    if t.len() == 0 || !is_space(t.last()) {
        t
    } else {
        spec_rtrim(t.drop_last())
    }
}

/// The run of conditional-name characters starting at `i`.
pub open spec fn spec_name_run(s: Seq<char>, i: int) -> (Seq<char>, int)
    decreases s.len() - i,
{
    if i < 0 || i >= s.len() || !is_name_char(s[i]) {
        (Seq::empty(), i)
    } else {
        let p = spec_name_run(s, i + 1);
        (seq![s[i]] + p.0, p.1)
    }
}

/// The run of interpolation-name characters starting at `i`.
pub open spec fn spec_interp_run(s: Seq<char>, i: int) -> (Seq<char>, int)
    decreases s.len() - i,
{
    if i < 0 || i >= s.len() || !is_interp_char(s[i]) {
        (Seq::empty(), i)
    } else {
        let p = spec_interp_run(s, i + 1);
        (seq![s[i]] + p.0, p.1)
    }
}

/// The run of literal characters (up to the next `{`) starting at `i`.
pub open spec fn spec_lit_run(s: Seq<char>, i: int) -> (Seq<char>, int)
    decreases s.len() - i,
{
    if i < 0 || i >= s.len() || s[i] == '{' {
        (Seq::empty(), i)
    } else {
        let p = spec_lit_run(s, i + 1);
        (seq![s[i]] + p.0, p.1)
    }
}

/// Whether a conditional delimiter `{{-` opens at `i`.
pub open spec fn delim_at(s: Seq<char>, i: int) -> bool {
    0 <= i && i + 3 <= s.len() && s[i] == '{' && s[i + 1] == '{' && s[i + 2] == '-'
}

/// Whether the closing marker `-}}` stands at `i`.
pub open spec fn close_at(s: Seq<char>, i: int) -> bool {
    0 <= i && i + 3 <= s.len() && s[i] == '-' && s[i + 1] == '}' && s[i + 2] == '}'
}

/// Whether the keyword `endif` stands at `i`.
pub open spec fn endif_at(s: Seq<char>, i: int) -> bool {
    0 <= i && i + 5 <= s.len() && s[i] == 'e' && s[i + 1] == 'n' && s[i + 2] == 'd' && s[i + 3]
        == 'i' && s[i + 4] == 'f'
}

/// Whether the keyword `if`, followed by whitespace, stands at `i`.
pub open spec fn if_at(s: Seq<char>, i: int) -> bool {
    0 <= i && i + 3 <= s.len() && s[i] == 'i' && s[i + 1] == 'f' && is_space(s[i + 2])
}

/// A conditional delimiter's content: an opening `if` with its field name,
/// or a closing `endif`.
pub enum TagV {
    If(Seq<char>),
    Endif,
}

/// The tag between `{{-` and `-}}`, parsed from just after the `{{-`:
/// the tag and the index just past the `-}}`.
pub open spec fn spec_tag(s: Seq<char>, i: int) -> Option<(TagV, int)> {
    let k = spec_skip_ws(s, i);
    if endif_at(s, k) {
        let k2 = spec_skip_ws(s, k + 5);
        if close_at(s, k2) {
            Some((TagV::Endif, k2 + 3))
        } else {
            None
        }
    } else if if_at(s, k) {
        let k2 = spec_skip_ws(s, k + 2);
        let p = spec_name_run(s, k2);
        if p.0.len() == 0 {
            None
        } else {
            let k3 = spec_skip_ws(s, p.1);
            if close_at(s, k3) {
                Some((TagV::If(p.0), k3 + 3))
            } else {
                None
            }
        }
    } else {
        None
    }
}

/// One parsed atom: literal text, or the interpolation of a field.
pub enum AtomV {
    Lit(Seq<char>),
    Interp(Seq<char>),
}

/// One parsed piece: an atom, or a conditional block with its guard field
/// and its body atoms.
pub enum PieceV {
    Atom(AtomV),
    Cond(Seq<char>, Seq<AtomV>),
}

/// The atoms of a conditional body, parsed from `i` up to and including the
/// closing `{{- endif -}}`: the atoms, and the index after the close (with
/// the whitespace behind the closing marker skipped).  `None` when the body
/// is malformed or the conditional is never closed.  Parsing only ever moves
/// forward; the bound checks on returned indices keep the recursion
/// well-founded and are never taken on any input.
pub open spec fn spec_body(s: Seq<char>, i: int) -> Option<(Seq<AtomV>, int)>
    decreases s.len() - i,
{
    if i < 0 || i >= s.len() {
        None
    } else if s[i] == '{' {
        if delim_at(s, i) {
            match spec_tag(s, i + 3) {
                None => None,
                Some((TagV::Endif, j)) => Some((Seq::empty(), spec_skip_ws(s, j))),
                Some((TagV::If(_), j)) => None,
            }
        } else if i + 1 < s.len() && s[i + 1] == '{' {
            None
        } else {
            let p = spec_interp_run(s, i + 1);
            if p.0.len() == 0 || p.1 >= s.len() || s[p.1] != '}' {
                None
            } else {
                let j = p.1 + 1;
                if j <= i || j > s.len() {
                    None
                } else {
                    match spec_body(s, j) {
                        None => None,
                        Some((atoms, k)) => Some((seq![AtomV::Interp(p.0)] + atoms, k)),
                    }
                }
            }
        }
    } else {
        let p = spec_lit_run(s, i);
        if p.1 <= i || p.1 > s.len() {
            None
        } else {
            let lit = if delim_at(s, p.1) {
                spec_rtrim(p.0)
            } else {
                p.0
            };
            match spec_body(s, p.1) {
                None => None,
                Some((atoms, k)) => if lit.len() == 0 {
                    Some((atoms, k))
                } else {
                    Some((seq![AtomV::Lit(lit)] + atoms, k))
                },
            }
        }
    }
}

/// The pieces of a whole template, parsed from `i` to the end of the text.
/// `None` when the text is malformed.
pub open spec fn spec_pieces(s: Seq<char>, i: int) -> Option<Seq<PieceV>>
    decreases s.len() - i,
{
    if i < 0 {
        None
    } else if i >= s.len() {
        Some(Seq::empty())
    } else if s[i] == '{' {
        if delim_at(s, i) {
            match spec_tag(s, i + 3) {
                None => None,
                Some((TagV::Endif, j)) => None,
                Some((TagV::If(x), j)) => {
                    let k = spec_skip_ws(s, j);
                    match spec_body(s, k) {
                        None => None,
                        Some((atoms, k2)) => if k2 <= i || k2 > s.len() {
                            None
                        } else {
                            match spec_pieces(s, k2) {
                                None => None,
                                Some(ps) => Some(seq![PieceV::Cond(x, atoms)] + ps),
                            }
                        },
                    }
                },
            }
        } else if i + 1 < s.len() && s[i + 1] == '{' {
            None
        } else {
            let p = spec_interp_run(s, i + 1);
            if p.0.len() == 0 || p.1 >= s.len() || s[p.1] != '}' {
                None
            } else {
                let j = p.1 + 1;
                if j <= i || j > s.len() {
                    None
                } else {
                    match spec_pieces(s, j) {
                        None => None,
                        Some(ps) => Some(seq![PieceV::Atom(AtomV::Interp(p.0))] + ps),
                    }
                }
            }
        }
    } else {
        let p = spec_lit_run(s, i);
        if p.1 <= i || p.1 > s.len() {
            None
        } else {
            let lit = if delim_at(s, p.1) {
                spec_rtrim(p.0)
            } else {
                p.0
            };
            match spec_pieces(s, p.1) {
                None => None,
                Some(ps) => if lit.len() == 0 {
                    Some(ps)
                } else {
                    Some(seq![PieceV::Atom(AtomV::Lit(lit))] + ps)
                },
            }
        }
    }
}

/// Whether the row mapping makes a conditional guard true: the field must be
/// present with a non-empty value.
pub open spec fn truthy(m: Map<Seq<char>, Seq<char>>, x: Seq<char>) -> bool {
    m.contains_key(x) && m[x].len() > 0
}

/// What one atom renders to; `None` when it interpolates a missing field.
pub open spec fn render_atom(a: AtomV, m: Map<Seq<char>, Seq<char>>) -> Option<Seq<char>> {
    match a {
        AtomV::Lit(l) => Some(l),
        AtomV::Interp(x) => if m.contains_key(x) {
            Some(m[x])
        } else {
            None
        },
    }
}

/// What a list of atoms renders to, in order.
pub open spec fn render_atoms(atoms: Seq<AtomV>, m: Map<Seq<char>, Seq<char>>) -> Option<
    Seq<char>,
>
    decreases atoms.len(),
{
    if atoms.len() == 0 {
        Some(Seq::empty())
    } else {
        match (render_atom(atoms[0], m), render_atoms(atoms.drop_first(), m)) {
            (Some(h), Some(t)) => Some(h + t),
            _ => None,
        }
    }
}

/// What one piece renders to.  A conditional whose guard is false renders to
/// nothing, whatever its body holds.
pub open spec fn render_piece(p: PieceV, m: Map<Seq<char>, Seq<char>>) -> Option<Seq<char>> {
    match p {
        PieceV::Atom(a) => render_atom(a, m),
        PieceV::Cond(x, body) => if truthy(m, x) {
            render_atoms(body, m)
        } else {
            Some(Seq::empty())
        },
    }
}

/// What a whole template renders to against a row mapping.
pub open spec fn render_pieces(ps: Seq<PieceV>, m: Map<Seq<char>, Seq<char>>) -> Option<Seq<char>>
    decreases ps.len(),
{
    if ps.len() == 0 {
        Some(Seq::empty())
    } else {
        match (render_piece(ps[0], m), render_pieces(ps.drop_first(), m)) {
            (Some(h), Some(t)) => Some(h + t),
            _ => None,
        }
    }
}

/// Whether `p` is a conditional guarded by `x`.
pub open spec fn is_cond_on(p: PieceV, x: Seq<char>) -> bool {
    match p {
        PieceV::Cond(n, _) => n == x,
        _ => false,
    }
}

/// A template made only of conditional blocks guarded by `x` renders to the
/// empty string, without error, against a mapping that lacks `x`.
pub proof fn lemma_conditionals_on_missing_key(
    ps: Seq<PieceV>,
    m: Map<Seq<char>, Seq<char>>,
    x: Seq<char>,
)
    requires
        forall|k: int| 0 <= k < ps.len() ==> is_cond_on(#[trigger] ps[k], x),
        !m.contains_key(x),
    ensures
        render_pieces(ps, m) == Some(Seq::<char>::empty()),
    decreases ps.len(),
{
    if ps.len() > 0 {
        assert(is_cond_on(ps[0], x));
        assert(render_piece(ps[0], m) == Some(Seq::<char>::empty()));
        lemma_conditionals_on_missing_key(ps.drop_first(), m, x);
        assert(Seq::<char>::empty() + Seq::<char>::empty() =~= Seq::<char>::empty());
    }
}

/// A bare interpolation of a field the mapping lacks makes the whole
/// rendering fail, wherever it stands in the template.
pub proof fn lemma_missing_interpolation_fails(
    ps: Seq<PieceV>,
    m: Map<Seq<char>, Seq<char>>,
    x: Seq<char>,
    k: int,
)
    requires
        0 <= k < ps.len(),
        ps[k] == PieceV::Atom(AtomV::Interp(x)),
        !m.contains_key(x),
    ensures
        render_pieces(ps, m) is None,
    decreases ps.len(),
{
    if k == 0 {
        assert(render_piece(ps[0], m) is None);
    } else {
        lemma_missing_interpolation_fails(ps.drop_first(), m, x, k - 1);
    }
}

/// One compiled atom: literal text, or the interpolation of a field.
pub enum Atom {
    Lit(String),
    Interp(String),
}

impl View for Atom {
    type V = AtomV;

    open spec fn view(&self) -> AtomV {
        match self {
            Atom::Lit(l) => AtomV::Lit(l@),
            Atom::Interp(x) => AtomV::Interp(x@),
        }
    }
}

/// One compiled piece: an atom, or a conditional block.
pub enum Piece {
    Atom(Atom),
    Cond(String, Vec<Atom>),
}

/// The views of a list of compiled atoms.
pub open spec fn atoms_view(atoms: Seq<Atom>) -> Seq<AtomV> {
    atoms.map_values(|a: Atom| a@)
}

impl View for Piece {
    type V = PieceV;

    open spec fn view(&self) -> PieceV {
        match self {
            Piece::Atom(a) => PieceV::Atom(a@),
            Piece::Cond(x, body) => PieceV::Cond(x@, atoms_view(body@)),
        }
    }
}

/// The views of a list of compiled pieces.
pub open spec fn pieces_view(ps: Seq<Piece>) -> Seq<PieceV> {
    ps.map_values(|p: Piece| p@)
}

enum Tag {
    If(String),
    Endif,
}

impl View for Tag {
    type V = TagV;

    closed spec fn view(&self) -> TagV {
        match self {
            Tag::If(x) => TagV::If(x@),
            Tag::Endif => TagV::Endif,
        }
    }
}

fn skip_ws(s: &Vec<char>, i: usize) -> (r: usize)
    requires
        i <= s.len(),
    ensures
        r == spec_skip_ws(s@, i as int),
        i <= r <= s.len(),
    decreases s.len() - i,
{
    if i >= s.len() || !(s[i] == ' ' || s[i] == '\t' || s[i] == '\r' || s[i] == '\n') {
        i
    } else {
        skip_ws(s, i + 1)
    }
}

fn rtrim_chars(t: Vec<char>) -> (r: Vec<char>)
    ensures
        r@ == spec_rtrim(t@),
    decreases t@.len(),
{
    let mut t = t;
    let n = t.len();
    if n == 0 {
        return t;
    }
    let c = t[n - 1];
    if c == ' ' || c == '\t' || c == '\r' || c == '\n' {
        let ghost before = t@;
        t.pop();
        proof {
            assert(t@ =~= before.drop_last());
        }
        rtrim_chars(t)
    } else {
        t
    }
}

fn name_run(s: &Vec<char>, i: usize) -> (r: (Vec<char>, usize))
    requires
        i <= s.len(),
    ensures
        spec_name_run(s@, i as int) == (r.0@, r.1 as int),
        i <= r.1 <= s.len(),
    decreases s.len() - i,
{
    if i >= s.len() {
        return (Vec::new(), i);
    }
    let c = s[i];
    if c == ' ' || c == '\t' || c == '\r' || c == '\n' || c == '-' || c == '{' || c == '}' {
        (Vec::new(), i)
    } else {
        let p = name_run(s, i + 1);
        let mut f = p.0;
        let ghost old_f = f@;
        f.insert(0, c);
        proof {
            assert(f@ =~= seq![s@[i as int]] + old_f);
        }
        (f, p.1)
    }
}

fn interp_run(s: &Vec<char>, i: usize) -> (r: (Vec<char>, usize))
    requires
        i <= s.len(),
    ensures
        spec_interp_run(s@, i as int) == (r.0@, r.1 as int),
        i <= r.1 <= s.len(),
    decreases s.len() - i,
{
    if i >= s.len() {
        return (Vec::new(), i);
    }
    let c = s[i];
    if c == '{' || c == '}' {
        (Vec::new(), i)
    } else {
        let p = interp_run(s, i + 1);
        let mut f = p.0;
        let ghost old_f = f@;
        f.insert(0, c);
        proof {
            assert(f@ =~= seq![s@[i as int]] + old_f);
        }
        (f, p.1)
    }
}

fn lit_run(s: &Vec<char>, i: usize) -> (r: (Vec<char>, usize))
    requires
        i <= s.len(),
    ensures
        spec_lit_run(s@, i as int) == (r.0@, r.1 as int),
        i <= r.1 <= s.len(),
    decreases s.len() - i,
{
    if i >= s.len() {
        return (Vec::new(), i);
    }
    let c = s[i];
    if c == '{' {
        (Vec::new(), i)
    } else {
        let p = lit_run(s, i + 1);
        let mut f = p.0;
        let ghost old_f = f@;
        f.insert(0, c);
        proof {
            assert(f@ =~= seq![s@[i as int]] + old_f);
        }
        (f, p.1)
    }
}

fn delim_at_exec(s: &Vec<char>, i: usize) -> (r: bool)
    requires
        i <= s.len(),
    ensures
        r == delim_at(s@, i as int),
{
    let n = s.len();
    n >= 3 && i <= n - 3 && s[i] == '{' && s[i + 1] == '{' && s[i + 2] == '-'
}

fn close_at_exec(s: &Vec<char>, i: usize) -> (r: bool)
    requires
        i <= s.len(),
    ensures
        r == close_at(s@, i as int),
{
    let n = s.len();
    n >= 3 && i <= n - 3 && s[i] == '-' && s[i + 1] == '}' && s[i + 2] == '}'
}

fn tag_at(s: &Vec<char>, i: usize) -> (r: Option<(Tag, usize)>)
    requires
        i <= s.len(),
    ensures
        match r {
            Some(p) => spec_tag(s@, i as int) == Some((p.0@, p.1 as int)) && i <= p.1 <= s.len(),
            None => spec_tag(s@, i as int) is None,
        },
{
    let k = skip_ws(s, i);
    let n = s.len();
    let is_endif = n >= 5 && k <= n - 5 && s[k] == 'e' && s[k + 1] == 'n' && s[k + 2] == 'd' && s[
        k + 3] == 'i' && s[k + 4] == 'f';
    if is_endif {
        let k2 = skip_ws(s, k + 5);
        if close_at_exec(s, k2) {
            Some((Tag::Endif, k2 + 3))
        } else {
            None
        }
    } else if n >= 3 && k <= n - 3 && s[k] == 'i' && s[k + 1] == 'f' && (s[k + 2] == ' ' || s[k
        + 2] == '\t' || s[k + 2] == '\r' || s[k + 2] == '\n') {
        let k2 = skip_ws(s, k + 2);
        let p = name_run(s, k2);
        if p.0.len() == 0 {
            None
        } else {
            let k3 = skip_ws(s, p.1);
            if close_at_exec(s, k3) {
                Some((Tag::If(chars_to_string(&p.0)), k3 + 3))
            } else {
                None
            }
        }
    } else {
        None
    }
}

fn body_at(s: &Vec<char>, i: usize) -> (r: Option<(Vec<Atom>, usize)>)
    requires
        i <= s.len(),
    ensures
        match r {
            Some(p) => spec_body(s@, i as int) == Some((atoms_view(p.0@), p.1 as int)) && p.1
                <= s.len(),
            None => spec_body(s@, i as int) is None,
        },
    decreases s.len() - i,
{
    if i >= s.len() {
        return None;
    }
    if s[i] == '{' {
        if delim_at_exec(s, i) {
            match tag_at(s, i + 3) {
                None => None,
                Some((Tag::Endif, j)) => {
                    let e = skip_ws(s, j);
                    let atoms: Vec<Atom> = Vec::new();
                    proof {
                        assert(atoms_view(atoms@) =~= Seq::<AtomV>::empty());
                    }
                    Some((atoms, e))
                },
                Some((Tag::If(_), j)) => None,
            }
        } else if i + 1 < s.len() && s[i + 1] == '{' {
            None
        } else {
            let p = interp_run(s, i + 1);
            if p.0.len() == 0 || p.1 >= s.len() || s[p.1] != '}' {
                None
            } else {
                let j = p.1 + 1;
                if j <= i || j > s.len() {
                    None
                } else {
                    match body_at(s, j) {
                        None => None,
                        Some((rest, k)) => {
                            let mut atoms = rest;
                            let ghost old_atoms = atoms_view(atoms@);
                            let name = chars_to_string(&p.0);
                            let a = Atom::Interp(name);
                            let ghost av = a@;
                            atoms.insert(0, a);
                            proof {
                                assert(atoms_view(atoms@) =~= seq![av] + old_atoms);
                            }
                            Some((atoms, k))
                        },
                    }
                }
            }
        }
    } else {
        let p = lit_run(s, i);
        if p.1 <= i || p.1 > s.len() {
            None
        } else {
            let lit = if delim_at_exec(s, p.1) {
                rtrim_chars(p.0)
            } else {
                p.0
            };
            match body_at(s, p.1) {
                None => None,
                Some((rest, k)) => {
                    if lit.len() == 0 {
                        proof {
                            assert(lit@.len() == 0);
                        }
                        Some((rest, k))
                    } else {
                        let mut atoms = rest;
                        let ghost old_atoms = atoms_view(atoms@);
                        let a = Atom::Lit(chars_to_string(&lit));
                        let ghost av = a@;
                        atoms.insert(0, a);
                        proof {
                            assert(atoms_view(atoms@) =~= seq![av] + old_atoms);
                        }
                        Some((atoms, k))
                    }
                },
            }
        }
    }
}

fn pieces_at(s: &Vec<char>, i: usize) -> (r: Option<Vec<Piece>>)
    requires
        i <= s.len(),
    ensures
        match r {
            Some(ps) => spec_pieces(s@, i as int) == Some(pieces_view(ps@)),
            None => spec_pieces(s@, i as int) is None,
        },
    decreases s.len() - i,
{
    if i >= s.len() {
        let ps: Vec<Piece> = Vec::new();
        proof {
            assert(pieces_view(ps@) =~= Seq::<PieceV>::empty());
        }
        return Some(ps);
    }
    if s[i] == '{' {
        if delim_at_exec(s, i) {
            match tag_at(s, i + 3) {
                None => None,
                Some((Tag::Endif, _)) => None,
                Some((Tag::If(x), j)) => {
                    let k = skip_ws(s, j);
                    match body_at(s, k) {
                        None => None,
                        Some((atoms, k2)) => {
                            if k2 <= i || k2 > s.len() {
                                None
                            } else {
                                match pieces_at(s, k2) {
                                    None => None,
                                    Some(rest) => {
                                        let mut ps = rest;
                                        let ghost old_ps = pieces_view(ps@);
                                        let piece = Piece::Cond(x, atoms);
                                        let ghost pv = piece@;
                                        ps.insert(0, piece);
                                        proof {
                                            assert(pieces_view(ps@) =~= seq![pv] + old_ps);
                                        }
                                        Some(ps)
                                    },
                                }
                            }
                        },
                    }
                },
            }
        } else if i + 1 < s.len() && s[i + 1] == '{' {
            None
        } else {
            let p = interp_run(s, i + 1);
            if p.0.len() == 0 || p.1 >= s.len() || s[p.1] != '}' {
                None
            } else {
                let j = p.1 + 1;
                if j <= i || j > s.len() {
                    None
                } else {
                    match pieces_at(s, j) {
                        None => None,
                        Some(rest) => {
                            let mut ps = rest;
                            let ghost old_ps = pieces_view(ps@);
                            let piece = Piece::Atom(Atom::Interp(chars_to_string(&p.0)));
                            let ghost pv = piece@;
                            ps.insert(0, piece);
                            proof {
                                assert(pieces_view(ps@) =~= seq![pv] + old_ps);
                            }
                            Some(ps)
                        },
                    }
                }
            }
        }
    } else {
        let p = lit_run(s, i);
        if p.1 <= i || p.1 > s.len() {
            None
        } else {
            let lit = if delim_at_exec(s, p.1) {
                rtrim_chars(p.0)
            } else {
                p.0
            };
            match pieces_at(s, p.1) {
                None => None,
                Some(rest) => {
                    if lit.len() == 0 {
                        proof {
                            assert(lit@.len() == 0);
                        }
                        Some(rest)
                    } else {
                        let mut ps = rest;
                        let ghost old_ps = pieces_view(ps@);
                        let piece = Piece::Atom(Atom::Lit(chars_to_string(&lit)));
                        let ghost pv = piece@;
                        ps.insert(0, piece);
                        proof {
                            assert(pieces_view(ps@) =~= seq![pv] + old_ps);
                        }
                        Some(ps)
                    }
                },
            }
        }
    }
}

/// A template after successful compilation, ready for repeated rendering.
pub struct CompiledTemplate {
    pieces: Vec<Piece>,
}

impl CompiledTemplate {
    /// The compiled pieces, in template order.
    pub closed spec fn template_view(&self) -> Seq<PieceV> {
        pieces_view(self.pieces@)
    }

    /// Compiles the template text; fails exactly when the text is malformed.
    pub fn compile(text: &str) -> (r: Result<CompiledTemplate, TemplateError>)
        ensures
            match r {
                Ok(t) => spec_pieces(text@, 0) == Some(t.template_view()),
                Err(_) => spec_pieces(text@, 0) is None,
            },
    {
        let chars = str_to_chars(text);
        match pieces_at(&chars, 0) {
            None => Err(TemplateError),
            Some(ps) => Ok(CompiledTemplate { pieces: ps }),
        }
    }

    /// Renders the template against one row mapping; fails exactly when a
    /// bare interpolation names a field the mapping lacks.
    pub fn render(&self, row: &RowMapping) -> (r: Result<String, RenderError>)
        ensures
            match r {
                Ok(out) => render_pieces(self.template_view(), row@) == Some(out@),
                Err(_) => render_pieces(self.template_view(), row@) is None,
            },
    {
        match render_pieces_from(&self.pieces, 0, row) {
            Some(out) => {
                proof {
                    assert(pieces_view(self.pieces@).skip(0) =~= self.template_view());
                }
                Ok(out)
            },
            None => {
                proof {
                    assert(pieces_view(self.pieces@).skip(0) =~= self.template_view());
                }
                Err(RenderError)
            },
        }
    }
}

fn render_atoms_from(atoms: &Vec<Atom>, i: usize, row: &RowMapping) -> (r: Option<String>)
    requires
        i <= atoms.len(),
    ensures
        match r {
            Some(out) => render_atoms(atoms_view(atoms@).skip(i as int), row@) == Some(out@),
            None => render_atoms(atoms_view(atoms@).skip(i as int), row@) is None,
        },
    decreases atoms.len() - i,
{
    let ghost tail = atoms_view(atoms@).skip(i as int);
    if i >= atoms.len() {
        proof {
            assert(tail =~= Seq::<AtomV>::empty());
        }
        return Some(String::new());
    }
    proof {
        assert(tail[0] == atoms_view(atoms@)[i as int]);
        assert(tail.drop_first() =~= atoms_view(atoms@).skip(i as int + 1));
    }
    let head: String = match &atoms[i] {
        Atom::Lit(l) => l.clone(),
        Atom::Interp(x) => {
            match row.get(x.as_str()) {
                Some(v) => v,
                None => {
                    return None;
                },
            }
        },
    };
    match render_atoms_from(atoms, i + 1, row) {
        Some(rest) => {
            let out = head.concat(rest.as_str());
            Some(out)
        },
        None => None,
    }
}

fn render_pieces_from(pieces: &Vec<Piece>, i: usize, row: &RowMapping) -> (r: Option<String>)
    requires
        i <= pieces.len(),
    ensures
        match r {
            Some(out) => render_pieces(pieces_view(pieces@).skip(i as int), row@) == Some(out@),
            None => render_pieces(pieces_view(pieces@).skip(i as int), row@) is None,
        },
    decreases pieces.len() - i,
{
    let ghost tail = pieces_view(pieces@).skip(i as int);
    if i >= pieces.len() {
        proof {
            assert(tail =~= Seq::<PieceV>::empty());
        }
        return Some(String::new());
    }
    proof {
        assert(tail[0] == pieces_view(pieces@)[i as int]);
        assert(tail.drop_first() =~= pieces_view(pieces@).skip(i as int + 1));
    }
    let head: String = match &pieces[i] {
        Piece::Atom(Atom::Lit(l)) => l.clone(),
        Piece::Atom(Atom::Interp(x)) => {
            match row.get(x.as_str()) {
                Some(v) => v,
                None => {
                    proof {
                        assert(render_piece(tail[0], row@) is None);
                    }
                    return None;
                },
            }
        },
        Piece::Cond(x, body) => {
            let guard = match row.get(x.as_str()) {
                Some(v) => !v.as_str().is_empty(),
                None => false,
            };
            if guard {
                match render_atoms_from(body, 0, row) {
                    Some(h) => {
                        proof {
                            assert(atoms_view(body@).skip(0) =~= atoms_view(body@));
                        }
                        h
                    },
                    None => {
                        proof {
                            assert(atoms_view(body@).skip(0) =~= atoms_view(body@));
                            assert(render_piece(tail[0], row@) is None);
                        }
                        return None;
                    },
                }
            } else {
                String::new()
            }
        },
    };
    match render_pieces_from(pieces, i + 1, row) {
        Some(rest) => {
            let out = head.concat(rest.as_str());
            Some(out)
        },
        None => None,
    }
}

} // verus!
