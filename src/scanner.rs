//! The module scanner: a state machine over a nested token stream that
//! discovers annotated declarations and the group's shared-state type.

use vstd::prelude::*;
use vstd::string::*;

use crate::text::{push_char, push_text, same_text, text_of};
use crate::token::{Style, TokenTree};

verus! {

broadcast use vstd::seq::group_seq_axioms, vstd::std_specs::vec::group_vec_axioms;

/// The abstract state of a scan: the pending annotation, whether the `fn`
/// keyword was the previous identifier, the annotation argument collected so
/// far, and the shared-state type recorded for the whole group.
pub struct ScanModel {
    pub annotation: Option<Style>,
    pub after_fn: bool,
    pub buffer: Seq<char>,
    pub group_state: Option<Seq<char>>,
}

/// A discovered route in the abstract: the declaration's name and its style.
pub type RouteModel = (Seq<char>, Style);

/// The abstract outcome of a scan: the state reached and the routes found in
/// order, or the two shared-state types that disagree.
pub type ScanOutcome = Result<(ScanModel, Seq<RouteModel>), (Seq<char>, Seq<char>)>;

/// The scan state at the start of a group.
pub open spec fn initial_model() -> ScanModel {
    ScanModel { annotation: None, after_fn: false, buffer: Seq::empty(), group_state: None }
}

/// The style that an annotation identifier asks for, if `s` is one.
pub open spec fn annotation_style(s: Seq<char>) -> Option<Style> {
    if s == "get_api"@ {
        Some(Style::Query)
    } else if s == "post_api"@ || s == "api"@ {
        Some(Style::Body)
    } else {
        None
    }
}

/// An identifier right after `fn` names the declaration: a pending annotation
/// turns it into a route.
pub open spec fn name_step(m: ScanModel, s: Seq<char>) -> (ScanModel, Seq<RouteModel>) {
    if m.after_fn {
        match m.annotation {
            Some(style) => (
                ScanModel { annotation: None, after_fn: false, ..m },
                seq![(s, style)],
            ),
            None => (ScanModel { after_fn: false, ..m }, Seq::empty()),
        }
    } else {
        (m, Seq::empty())
    }
}

/// The `fn` keyword closes a collected annotation argument: it becomes the
/// group's shared-state type, unless another type was recorded before.
pub open spec fn keyword_step(m: ScanModel, s: Seq<char>) -> Result<ScanModel, (Seq<char>, Seq<char>)> {
    if s == "fn"@ {
        let m1 = ScanModel { after_fn: true, ..m };
        if m.buffer.len() > 0 {
            match m.group_state {
                Some(g) => if g != m.buffer {
                    Err((g, m.buffer))
                } else {
                    Ok(ScanModel { buffer: Seq::empty(), ..m1 })
                },
                None => Ok(ScanModel { buffer: Seq::empty(), group_state: Some(m.buffer), ..m1 }),
            }
        } else {
            Ok(m1)
        }
    } else {
        Ok(m)
    }
}

/// Between an annotation and `fn`, identifiers other than the qualifiers
/// `pub` and `async` spell out the annotation's argument.
pub open spec fn collect_step(m: ScanModel, s: Seq<char>) -> ScanModel {
    if m.annotation is Some && !m.after_fn && s != "pub"@ && s != "async"@ {
        ScanModel { buffer: m.buffer + s, ..m }
    } else {
        m
    }
}

/// An annotation identifier starts a new annotation with an empty argument.
pub open spec fn annotation_step(m: ScanModel, s: Seq<char>) -> ScanModel {
    match annotation_style(s) {
        Some(style) => ScanModel { annotation: Some(style), buffer: Seq::empty(), ..m },
        None => m,
    }
}

/// The scan of one identifier.
pub open spec fn ident_step(m: ScanModel, s: Seq<char>) -> Result<(ScanModel, Seq<RouteModel>), (Seq<char>, Seq<char>)> {
    let (m1, found) = name_step(m, s);
    match keyword_step(m1, s) {
        Ok(m2) => Ok((annotation_step(collect_step(m2, s), s), found)),
        Err(e) => Err(e),
    }
}

/// The scan of one punctuation character: part of an annotation argument
/// while one is being collected.
pub open spec fn punct_step(m: ScanModel, c: char) -> ScanModel {
    if m.annotation is Some && !m.after_fn {
        ScanModel { buffer: m.buffer.push(c), ..m }
    } else {
        m
    }
}

/// The scan of a token sequence from state `m`, left to right; a group is
/// scanned in place, carrying the same state in and out.
pub open spec fn scan(ts: Seq<TokenTree>, m: ScanModel) -> ScanOutcome
    decreases ts,
{
    if ts.len() == 0 {
        Ok((m, Seq::empty()))
    } else {
        match scan(ts.drop_last(), m) {
            Err(e) => Err(e),
            Ok((m1, r1)) => {
                let last = ts.last();
                let next = match last {
                    TokenTree::Ident(s) => ident_step(m1, s@),
                    TokenTree::Punct(c) => Ok((punct_step(m1, c), Seq::empty())),
                    TokenTree::Literal(_) => Ok((m1, Seq::empty())),
                    TokenTree::Group(v) => scan(v@, m1),
                };
                match next {
                    Err(e) => Err(e),
                    Ok((m2, r2)) => Ok((m2, r1 + r2)),
                }
            },
        }
    }
}

/// Once a prefix of a sequence fails, the scan of the whole sequence fails
/// with the same conflict.
pub proof fn lemma_scan_error_persists(ts: Seq<TokenTree>, m: ScanModel, k: int)
    requires
        0 <= k <= ts.len(),
        scan(ts.subrange(0, k), m) is Err,
    ensures
        scan(ts, m) == scan(ts.subrange(0, k), m),
    decreases ts.len() - k,
{
    if k < ts.len() {
        assert(ts.subrange(0, k + 1).drop_last() =~= ts.subrange(0, k));
        lemma_scan_error_persists(ts, m, k + 1);
    } else {
        assert(ts.subrange(0, k) =~= ts);
    }
}

/// A route found by a scan.
pub struct FoundRoute {
    pub name: String,
    pub style: Style,
}

impl View for FoundRoute {
    type V = RouteModel;

    open spec fn view(&self) -> RouteModel {
        (self.name@, self.style)
    }
}

/// Two annotations in one group that name different shared-state types.
pub struct StateConflict {
    pub first: String,
    pub second: String,
}

impl StateConflict {
    /// The message that reports the conflict, naming both types.
    pub fn message(&self) -> (r: String)
        ensures
            r@ == "Only one type is allowed. First type: "@ + self.first@ + " Second Type: "@
                + self.second@,
    {
        let mut r = text_of("Only one type is allowed. First type: ");
        push_text(&mut r, self.first.as_str());
        push_text(&mut r, " Second Type: ");
        push_text(&mut r, self.second.as_str());
        r
    }
}

/// The view of a list of found routes.
pub open spec fn routes_view(v: Seq<FoundRoute>) -> Seq<RouteModel> {
    v.map_values(|f: FoundRoute| f@)
}

/// The running state of a scan.
pub(crate) struct Scanner {
    annotation: Option<Style>,
    after_fn: bool,
    buffer: String,
    group_state: Option<String>,
}

impl View for Scanner {
    type V = ScanModel;

    closed spec fn view(&self) -> ScanModel {
        ScanModel {
            annotation: self.annotation,
            after_fn: self.after_fn,
            buffer: self.buffer@,
            group_state: match self.group_state {
                Some(g) => Some(g@),
                None => None,
            },
        }
    }
}

/// The style of an annotation identifier, if `s` is one.
pub fn annotation_of(s: &str) -> (r: Option<Style>)
    ensures
        r == annotation_style(s@),
{
    if same_text(s, "get_api") {
        Some(Style::Query)
    } else if same_text(s, "post_api") || same_text(s, "api") {
        Some(Style::Body)
    } else {
        None
    }
}

impl Scanner {
    /// A scanner in the state at the start of a group.
    pub(crate) fn new() -> (r: Scanner)
        ensures
            r@ == initial_model(),
    {
        Scanner { annotation: None, after_fn: false, buffer: String::new(), group_state: None }
    }

    /// The shared-state type recorded so far.
    pub(crate) fn group_state(&self) -> (r: Option<String>)
        ensures
            r is Some <==> self@.group_state is Some,
            r is Some ==> r->0@ == self@.group_state->0,
    {
        match &self.group_state {
            Some(g) => Some(text_of(g.as_str())),
            None => None,
        }
    }

    fn ident(&mut self, s: &String, found: &mut Vec<FoundRoute>) -> (r: Result<(), StateConflict>)
        ensures
            match ident_step(old(self)@, s@) {
                Ok((m, rs)) => r is Ok && final(self)@ == m && routes_view(final(found)@)
                    == routes_view(old(found)@) + rs,
                Err((a, b)) => r is Err && r->Err_0.first@ == a && r->Err_0.second@ == b,
            },
    {
        let ghost m0 = self@;
        if self.after_fn {
            match self.annotation {
                Some(style) => {
                    found.push(FoundRoute { name: text_of(s.as_str()), style });
                    self.annotation = None;
                },
                None => {},
            }
            self.after_fn = false;
        }
        assert(routes_view(found@) == routes_view(old(found)@) + name_step(m0, s@).1);
        assert(self@ == name_step(m0, s@).0);
        if same_text(s.as_str(), "fn") {
            self.after_fn = true;
            if self.buffer.as_str().unicode_len() > 0 {
                match &self.group_state {
                    Some(g) => {
                        if !same_text(g.as_str(), self.buffer.as_str()) {
                            return Err(
                                StateConflict { first: text_of(g.as_str()), second: text_of(self.buffer.as_str()) },
                            );
                        }
                    },
                    None => {
                        self.group_state = Some(text_of(self.buffer.as_str()));
                    },
                }
                self.buffer = String::new();
            }
        }
        if self.annotation.is_some() && !self.after_fn && !same_text(s.as_str(), "pub") && !same_text(
            s.as_str(),
            "async",
        ) {
            push_text(&mut self.buffer, s.as_str());
        }
        match annotation_of(s.as_str()) {
            Some(style) => {
                self.annotation = Some(style);
                self.buffer = String::new();
            },
            None => {},
        }
        Ok(())
    }

    fn punct(&mut self, c: char)
        ensures
            final(self)@ == punct_step(old(self)@, c),
    {
        if self.annotation.is_some() && !self.after_fn {
            push_char(&mut self.buffer, c);
        }
    }

    /// Scans `tokens` from the current state, appending the routes found to
    /// `found`; stops at the first conflict between shared-state types.
    pub(crate) fn scan_tokens(&mut self, tokens: &Vec<TokenTree>, found: &mut Vec<FoundRoute>) -> (r: Result<(), StateConflict>)
        ensures
            match scan(tokens@, old(self)@) {
                Ok((m, rs)) => r is Ok && final(self)@ == m && routes_view(final(found)@)
                    == routes_view(old(found)@) + rs,
                Err((a, b)) => r is Err && r->Err_0.first@ == a && r->Err_0.second@ == b,
            },
        decreases tokens,
    {
        let ghost m0 = self@;
        let ghost f0 = routes_view(found@);
        let n = tokens.len();
        let mut i: usize = 0;
        assert(tokens@.subrange(0, 0) =~= Seq::<TokenTree>::empty());
        while i < n
            invariant
                n == tokens@.len(),
                i <= n,
                m0 == old(self)@,
                scan(tokens@.subrange(0, i as int), m0) matches Ok((m, rs)) && self@ == m
                    && routes_view(found@) == f0 + rs,
            decreases n - i,
        {
            let ghost pre = tokens@.subrange(0, i as int);
            let ghost rs0 = scan(pre, m0)->Ok_0.1;
            let ghost next = tokens@.subrange(0, i + 1);
            assert(next.drop_last() =~= pre);
            assert(next.last() == tokens@[i as int]);
            match &tokens[i] {
                TokenTree::Ident(s) => {
                    let r = self.ident(s, found);
                    if r.is_err() {
                        proof {
                            assert(scan(next, m0) is Err);
                            lemma_scan_error_persists(tokens@, m0, i + 1);
                        }
                        return r;
                    }
                },
                TokenTree::Punct(c) => {
                    self.punct(*c);
                    assert(routes_view(found@) =~= f0 + (rs0 + Seq::<RouteModel>::empty()));
                },
                TokenTree::Literal(_) => {
                    assert(routes_view(found@) =~= f0 + (rs0 + Seq::<RouteModel>::empty()));
                },
                TokenTree::Group(v) => {
                    assert(decreases_to!(tokens => tokens@[i as int]));
                    let r = self.scan_tokens(v, found);
                    if r.is_err() {
                        proof {
                            assert(scan(next, m0) is Err);
                            lemma_scan_error_persists(tokens@, m0, i + 1);
                        }
                        return r;
                    }
                },
            }
            assert(routes_view(found@) =~= f0 + scan(next, m0)->Ok_0.1);
            i = i + 1;
        }
        assert(tokens@.subrange(0, n as int) =~= tokens@);
        Ok(())
    }
}

/// The routes and the shared-state type that a scan of a whole group found.
pub struct ScanResult {
    pub routes: Vec<FoundRoute>,
    pub state: Option<String>,
}

/// The view of an optional text.
pub open spec fn opt_text(o: Option<String>) -> Option<Seq<char>> {
    match o {
        Some(s) => Some(s@),
        None => None,
    }
}

/// Scans a whole group of declarations: every annotated declaration, at any
/// depth, in order, with at most one shared-state type for the group.
pub fn scan_group(tokens: &Vec<TokenTree>) -> (r: Result<ScanResult, StateConflict>)
    ensures
        match scan(tokens@, initial_model()) {
            Ok((m, rs)) => r is Ok && routes_view(r->Ok_0.routes@) == rs && opt_text(r->Ok_0.state)
                == m.group_state,
            Err((a, b)) => r is Err && r->Err_0.first@ == a && r->Err_0.second@ == b,
        },
{
    let mut scanner = Scanner::new();
    let mut routes: Vec<FoundRoute> = Vec::new();
    assert(routes_view(routes@) =~= Seq::<RouteModel>::empty());
    match scanner.scan_tokens(tokens, &mut routes) {
        Ok(()) => {
            assert(routes_view(routes@) =~= Seq::<RouteModel>::empty() + scan(tokens@, initial_model())->Ok_0.1);
            let state = scanner.group_state();
            Ok(ScanResult { routes, state })
        },
        Err(e) => Err(e),
    }
}

} // verus!
