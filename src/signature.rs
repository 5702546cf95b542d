//! The signature analyser: from a declaration to its structured description.

use vstd::prelude::*;
use vstd::string::*;

use crate::scanner::opt_text;
use crate::text::{chars_of, push_char, text_of};
use crate::token::Style;

verus! {

/// The pattern that binds a parameter.
pub enum Pattern {
    /// A plain name.
    Ident(String),
    /// Any other pattern: a tuple, a struct, a wildcard.
    Other,
}

/// One parameter of a declaration.
pub enum Param {
    /// A `self` parameter.
    Receiver,
    /// A pattern and the text of its declared type.
    Typed(Pattern, String),
}

/// An annotated declaration: its name, its parameters in order, and the text
/// of its return type if it declares one.
pub struct Declaration {
    pub name: String,
    pub params: Vec<Param>,
    pub output: Option<String>,
}

/// Why a declaration cannot become an endpoint. The positions count the
/// declaration's parameters from zero.
#[derive(Clone, Copy, Debug, PartialEq, Eq, Structural)]
pub enum SignatureError {
    /// A `self` parameter at this position.
    Receiver(usize),
    /// A parameter at this position whose pattern is not a plain name.
    NonSimplePattern(usize),
    /// A query-style parameter at this position of a collection type;
    /// collections need the body style.
    CollectionArgument(usize),
    /// A shared-state type was given, but there is no parameter to take it.
    MissingStateParameter,
}

/// A parameter that travels on the wire, in the abstract: its name, its
/// value type and whether the declaration takes it by reference.
pub type ParamModel = (Seq<char>, Seq<char>, bool);

/// A parameter that travels on the wire.
pub struct WireParam {
    pub name: String,
    pub value_type: String,
    pub by_ref: bool,
}

impl View for WireParam {
    type V = ParamModel;

    open spec fn view(&self) -> ParamModel {
        (self.name@, self.value_type@, self.by_ref)
    }
}

/// The trailing parameter that receives the shared state: the state type
/// given with the annotation, and whether the declaration takes it by
/// reference.
pub struct StateParam {
    pub ty: String,
    pub by_ref: bool,
}

/// The structured description of a declaration, in the abstract.
pub struct SignatureModel {
    pub name: Seq<char>,
    pub params: Seq<ParamModel>,
    pub state: Option<(Seq<char>, bool)>,
    pub output: Seq<char>,
}

/// The structured description of a declaration: its name, the parameters
/// that travel on the wire, the shared-state parameter if any, and the
/// return type.
pub struct Signature {
    pub name: String,
    pub params: Vec<WireParam>,
    pub state: Option<StateParam>,
    pub output: String,
}

/// The views of a list of wire parameters.
pub open spec fn params_view(v: Seq<WireParam>) -> Seq<ParamModel> {
    v.map_values(|p: WireParam| p@)
}

impl View for Signature {
    type V = SignatureModel;

    open spec fn view(&self) -> SignatureModel {
        SignatureModel {
            name: self.name@,
            params: params_view(self.params@),
            state: match self.state {
                Some(s) => Some((s.ty@, s.by_ref)),
                None => None,
            },
            output: self.output@,
        }
    }
}

/// `s` without its leading spaces.
pub open spec fn skip_spaces(s: Seq<char>) -> Seq<char>
    decreases s.len(),
{
    if s.len() > 0 && s[0] == ' ' {
        skip_spaces(s.drop_first())
    } else {
        s
    }
}

/// A type taken by reference: written with a leading `&`.
pub open spec fn is_reference(ty: Seq<char>) -> bool {
    ty.len() > 0 && ty[0] == '&'
}

/// A character of an identifier or a lifetime name.
pub open spec fn is_word_char(c: char) -> bool {
    let v = c as u32;
    (48 <= v <= 57) || (65 <= v <= 90) || (97 <= v <= 122) || v == 95
}

/// `s` without its leading identifier characters.
pub open spec fn skip_word(s: Seq<char>) -> Seq<char>
    decreases s.len(),
{
    if s.len() > 0 && is_word_char(s[0]) {
        skip_word(s.drop_first())
    } else {
        s
    }
}

/// `s` without a leading lifetime such as `'a`.
pub open spec fn without_lifetime(s: Seq<char>) -> Seq<char> {
    if s.len() > 0 && s[0] == '\'' {
        skip_spaces(skip_word(s.drop_first()))
    } else {
        s
    }
}

/// `s` without a leading `mut` keyword.
pub open spec fn without_mut(s: Seq<char>) -> Seq<char> {
    if s.len() >= 4 && s[0] == 'm' && s[1] == 'u' && s[2] == 't' && s[3] == ' ' {
        skip_spaces(s.subrange(4, s.len() as int))
    } else {
        s
    }
}

/// The owned type that travels on the wire: the declared type without its
/// reference marker, that is the `&` with any lifetime and `mut` after it.
pub open spec fn value_type(ty: Seq<char>) -> Seq<char> {
    if is_reference(ty) {
        without_mut(without_lifetime(skip_spaces(ty.drop_first())))
    } else {
        ty
    }
}

/// `c` is the lower-case ASCII letter `l` in either case, or `l` itself.
pub open spec fn folds_to(c: char, l: char) -> bool {
    c == l || (97 <= (l as u32) <= 122 && (c as u32) == (l as u32) - 32)
}

/// The word `w` stands in `h` at position `i`, ignoring ASCII case.
pub open spec fn occurs_folded_at(h: Seq<char>, w: Seq<char>, i: int) -> bool {
    0 <= i && i + w.len() <= h.len() && forall|j: int|
        0 <= j < w.len() ==> #[trigger] folds_to(h[i + j], w[j])
}

/// The word `w` stands somewhere in `h`, ignoring ASCII case.
pub open spec fn occurs_folded(h: Seq<char>, w: Seq<char>) -> bool {
    exists|i: int| occurs_folded_at(h, w, i)
}

/// A collection or aggregate type, which cannot travel in a path or a query
/// string: a vector or deque, a hash or B-tree map or set, a binary heap, a
/// linked list, an array or a slice.
pub open spec fn is_collection(ty: Seq<char>) -> bool {
    ||| occurs_folded(ty, "vec"@)
    ||| occurs_folded(ty, "hashmap"@)
    ||| occurs_folded(ty, "btreemap"@)
    ||| occurs_folded(ty, "hashset"@)
    ||| occurs_folded(ty, "btreeset"@)
    ||| occurs_folded(ty, "binaryheap"@)
    ||| occurs_folded(ty, "linkedlist"@)
    ||| occurs_folded(ty, "["@)
}

/// The first parameter from position `i` on that is a receiver or is not
/// bound by a plain name, as an error.
pub open spec fn pattern_error(ps: Seq<Param>, i: int) -> Option<SignatureError>
    decreases ps.len() - i,
{
    if i < 0 || i >= ps.len() {
        None
    } else {
        match ps[i] {
            Param::Receiver => Some(SignatureError::Receiver(i as usize)),
            Param::Typed(Pattern::Other, _) => Some(SignatureError::NonSimplePattern(i as usize)),
            _ => pattern_error(ps, i + 1),
        }
    }
}

/// Where no parameter is a receiver or a pattern other than a plain name,
/// every parameter is bound by a plain name.
pub proof fn lemma_no_pattern_error(ps: Seq<Param>)
    requires
        pattern_error(ps, 0) is None,
    ensures
        forall|k: int| 0 <= k < ps.len() ==> #[trigger] ps[k] matches Param::Typed(Pattern::Ident(_), _),
{
    assert forall|k: int| 0 <= k < ps.len() implies #[trigger] ps[k] matches Param::Typed(Pattern::Ident(_), _) by {
        lemma_pattern_error_from(ps, 0, k);
    }
}

proof fn lemma_pattern_error_from(ps: Seq<Param>, i: int, k: int)
    requires
        0 <= i <= k < ps.len(),
        pattern_error(ps, i) is None,
    ensures
        ps[k] matches Param::Typed(Pattern::Ident(_), _),
    decreases k - i,
{
    if i < k {
        lemma_pattern_error_from(ps, i + 1, k);
    }
}

/// The wire view of a parameter bound by a plain name.
pub open spec fn wire_param(p: Param) -> ParamModel {
    (p->Typed_0->Ident_0@, value_type(p->Typed_1@), is_reference(p->Typed_1@))
}

/// The first wire parameter from position `i` on whose type is a collection.
pub open spec fn collection_error(ws: Seq<ParamModel>, i: int) -> Option<SignatureError>
    decreases ws.len() - i,
{
    if i < 0 || i >= ws.len() {
        None
    } else if is_collection(ws[i].1) {
        Some(SignatureError::CollectionArgument(i as usize))
    } else {
        collection_error(ws, i + 1)
    }
}

/// The text of a declaration's return type, the unit type where none is written.
pub open spec fn output_text(o: Option<String>) -> Seq<char> {
    match o {
        Some(t) => t@,
        None => "()"@,
    }
}

/// The structured description of `d`, for the given style and shared-state
/// type, or the first reason that it cannot be produced.
pub open spec fn analysis(d: Declaration, state: Option<Seq<char>>, style: Style) -> Result<
    SignatureModel,
    SignatureError,
> {
    let ps = d.params@;
    if pattern_error(ps, 0) is Some {
        Err(pattern_error(ps, 0)->0)
    } else if state is Some && ps.len() == 0 {
        Err(SignatureError::MissingStateParameter)
    } else {
        let n = if state is Some {
            ps.len() - 1
        } else {
            ps.len() as int
        };
        let ws = Seq::new(n as nat, |i: int| wire_param(ps[i]));
        if style == Style::Query && collection_error(ws, 0) is Some {
            Err(collection_error(ws, 0)->0)
        } else {
            Ok(
                SignatureModel {
                    name: d.name@,
                    params: ws,
                    state: match state {
                        Some(t) => Some((t, is_reference(ps.last()->Typed_1@))),
                        None => None,
                    },
                    output: output_text(d.output),
                },
            )
        }
    }
}

/// Whether the declared type `ty` is taken by reference.
pub fn is_reference_type(ty: &str) -> (r: bool)
    ensures
        r == is_reference(ty@),
{
    ty.unicode_len() > 0 && ty.get_char(0) == '&'
}

fn skip_spaces_at(cs: &Vec<char>, k: usize) -> (r: usize)
    requires
        k <= cs@.len(),
    ensures
        k <= r <= cs@.len(),
        cs@.subrange(r as int, cs@.len() as int) == skip_spaces(cs@.subrange(k as int, cs@.len() as int)),
{
    let n = cs.len();
    let mut i: usize = k;
    while i < n && cs[i] == ' '
        invariant
            n == cs@.len(),
            k <= i <= n,
            skip_spaces(cs@.subrange(k as int, n as int)) == skip_spaces(cs@.subrange(i as int, n as int)),
        decreases n - i,
    {
        assert(cs@.subrange(i as int, n as int).drop_first() =~= cs@.subrange(i + 1, n as int));
        i = i + 1;
    }
    i
}

fn word_char(c: char) -> (r: bool)
    ensures
        r == is_word_char(c),
{
    let v = c as u32;
    (48 <= v && v <= 57) || (65 <= v && v <= 90) || (97 <= v && v <= 122) || v == 95
}

fn skip_word_at(cs: &Vec<char>, k: usize) -> (r: usize)
    requires
        k <= cs@.len(),
    ensures
        k <= r <= cs@.len(),
        cs@.subrange(r as int, cs@.len() as int) == skip_word(cs@.subrange(k as int, cs@.len() as int)),
{
    let n = cs.len();
    let mut i: usize = k;
    while i < n && word_char(cs[i])
        invariant
            n == cs@.len(),
            k <= i <= n,
            skip_word(cs@.subrange(k as int, n as int)) == skip_word(cs@.subrange(i as int, n as int)),
        decreases n - i,
    {
        assert(cs@.subrange(i as int, n as int).drop_first() =~= cs@.subrange(i + 1, n as int));
        i = i + 1;
    }
    i
}

/// The owned type that carries a parameter declared with type `ty`.
pub fn value_type_of(ty: &str) -> (r: String)
    ensures
        r@ == value_type(ty@),
{
    if !is_reference_type(ty) {
        return text_of(ty);
    }
    let cs = chars_of(ty);
    let n = cs.len();
    assert(cs@.drop_first() =~= cs@.subrange(1, n as int));
    let mut k = skip_spaces_at(&cs, 1);
    assert(cs@.subrange(k as int, n as int) == skip_spaces(ty@.drop_first()));
    if k < n && cs[k] == '\'' {
        assert(cs@.subrange(k as int, n as int).drop_first() =~= cs@.subrange(k + 1, n as int));
        let w = skip_word_at(&cs, k + 1);
        k = skip_spaces_at(&cs, w);
    }
    assert(cs@.subrange(k as int, n as int) == without_lifetime(skip_spaces(ty@.drop_first())));
    if n - k >= 4 && cs[k] == 'm' && cs[k + 1] == 'u' && cs[k + 2] == 't' && cs[k + 3] == ' ' {
        assert(cs@.subrange(k as int, n as int).subrange(4, n - k) =~= cs@.subrange(k + 4, n as int));
        k = skip_spaces_at(&cs, k + 4);
    }
    assert(cs@.subrange(k as int, n as int) == value_type(ty@));
    let mut r = String::new();
    let mut i: usize = k;
    while i < n
        invariant
            cs@ == ty@,
            n == cs@.len(),
            k <= i <= n,
            r@ == cs@.subrange(k as int, i as int),
        decreases n - i,
    {
        push_char(&mut r, cs[i]);
        i = i + 1;
        assert(cs@.subrange(k as int, i as int) =~= cs@.subrange(k as int, i - 1).push(cs@[i - 1]));
    }
    r
}

/// Whether `w` stands in `h` at position `i`, ignoring ASCII case.
fn occurs_at(h: &Vec<char>, w: &Vec<char>, i: usize) -> (r: bool)
    requires
        i + w@.len() <= h@.len(),
    ensures
        r == occurs_folded_at(h@, w@, i as int),
{
    let hn = h.len();
    let mut j: usize = 0;
    while j < w.len()
        invariant
            hn == h@.len(),
            i + w@.len() <= h@.len(),
            j <= w@.len(),
            forall|k: int| 0 <= k < j ==> #[trigger] folds_to(h@[i + k], w@[k]),
        decreases w@.len() - j,
    {
        let c = h[i + j];
        let l = w[j];
        if !(c == l || (97 <= (l as u32) && (l as u32) <= 122 && (c as u32) == (l as u32) - 32)) {
            assert(!folds_to(h@[i + j], w@[j as int]));
            return false;
        }
        j = j + 1;
    }
    true
}

/// Whether the word `w` stands somewhere in `h`, ignoring ASCII case.
fn occurs(h: &Vec<char>, w: &str) -> (r: bool)
    ensures
        r == occurs_folded(h@, w@),
{
    let wc = chars_of(w);
    if wc.len() > h.len() {
        return false;
    }
    if wc.len() == 0 {
        assert(occurs_folded_at(h@, w@, 0));
        return true;
    }
    let hn = h.len();
    let last = hn - wc.len();
    let mut i: usize = 0;
    while i <= last
        invariant
            hn == h@.len(),
            wc@ == w@,
            last == h@.len() - wc@.len(),
            last < h@.len(),
            forall|k: int| 0 <= k < i ==> !#[trigger] occurs_folded_at(h@, w@, k),
        decreases last + 1 - i,
    {
        if occurs_at(h, &wc, i) {
            return true;
        }
        i = i + 1;
    }
    assert forall|k: int| !#[trigger] occurs_folded_at(h@, w@, k) by {
        if 0 <= k < i {
        }
    }
    false
}

/// Whether the type `ty` is a collection, which only the body style carries.
pub fn is_collection_type(ty: &str) -> (r: bool)
    ensures
        r == is_collection(ty@),
{
    let h = chars_of(ty);
    occurs(&h, "vec") || occurs(&h, "hashmap") || occurs(&h, "btreemap") || occurs(&h, "hashset")
        || occurs(&h, "btreeset") || occurs(&h, "binaryheap") || occurs(&h, "linkedlist") || occurs(
        &h,
        "[",
    )
}

/// Analyses the declaration `d` for an endpoint of the given style. With a
/// shared-state type, the last parameter receives the state and does not
/// travel on the wire; every other parameter travels as its value type.
pub fn analyze(d: &Declaration, state: Option<String>, style: Style) -> (r: Result<Signature, SignatureError>)
    ensures
        match analysis(*d, opt_text(state), style) {
            Ok(m) => r is Ok && r->Ok_0@ == m,
            Err(e) => r == Err::<Signature, SignatureError>(e),
        },
{
    let ghost ps = d.params@;
    let n = d.params.len();
    let mut i: usize = 0;
    while i < n
        invariant
            ps == d.params@,
            n == ps.len(),
            i <= n,
            pattern_error(ps, 0) == pattern_error(ps, i as int),
            forall|j: int| 0 <= j < i ==> #[trigger] ps[j] matches Param::Typed(Pattern::Ident(_), _),
        decreases n - i,
    {
        match &d.params[i] {
            Param::Receiver => {
                return Err(SignatureError::Receiver(i));
            },
            Param::Typed(Pattern::Other, _) => {
                return Err(SignatureError::NonSimplePattern(i));
            },
            Param::Typed(Pattern::Ident(_), _) => {},
        }
        i = i + 1;
    }
    if state.is_some() && n == 0 {
        return Err(SignatureError::MissingStateParameter);
    }
    let nw: usize = if state.is_some() {
        n - 1
    } else {
        n
    };
    let ghost wsm = Seq::new(nw as nat, |j: int| wire_param(ps[j]));
    let mut params: Vec<WireParam> = Vec::new();
    let mut i: usize = 0;
    while i < nw
        invariant
            ps == d.params@,
            n == ps.len(),
            nw <= n,
            i <= nw,
            wsm == Seq::new(nw as nat, |j: int| wire_param(ps[j])),
            forall|j: int| 0 <= j < n ==> #[trigger] ps[j] matches Param::Typed(Pattern::Ident(_), _),
            params@.len() == i,
            forall|j: int| 0 <= j < i ==> #[trigger] params@[j]@ == wsm[j],
        decreases nw - i,
    {
        match &d.params[i] {
            Param::Typed(Pattern::Ident(name), ty) => {
                params.push(
                    WireParam {
                        name: text_of(name.as_str()),
                        value_type: value_type_of(ty.as_str()),
                        by_ref: is_reference_type(ty.as_str()),
                    },
                );
            },
            _ => {
                assert(false);
            },
        }
        i = i + 1;
    }
    assert(params_view(params@) =~= wsm);
    if style == Style::Query {
        let mut i: usize = 0;
        while i < nw
            invariant
                params_view(params@) == wsm,
                nw == wsm.len(),
                ps == d.params@,
                pattern_error(ps, 0) is None,
                !(state is Some && ps.len() == 0),
                nw == (if state is Some { ps.len() - 1 } else { ps.len() as int }),
                wsm == Seq::new(nw as nat, |j: int| wire_param(ps[j])),
                style == Style::Query,
                i <= nw,
                collection_error(wsm, 0) == collection_error(wsm, i as int),
            decreases nw - i,
        {
            assert(params@[i as int]@ == wsm[i as int]);
            if is_collection_type(params[i].value_type.as_str()) {
                return Err(SignatureError::CollectionArgument(i));
            }
            i = i + 1;
        }
    }
    let state_param = match state {
        Some(ty) => {
            let by_ref = match &d.params[n - 1] {
                Param::Typed(_, t) => is_reference_type(t.as_str()),
                _ => false,
            };
            Some(StateParam { ty, by_ref })
        },
        None => None,
    };
    let output = match &d.output {
        Some(o) => text_of(o.as_str()),
        None => text_of("()"),
    };
    Ok(Signature { name: text_of(d.name.as_str()), params, state: state_param, output })
}

} // verus!
