//! The artifact synthesiser: names, paths, guards and call plans of the
//! endpoint generated for a declaration.

use vstd::prelude::*;
use vstd::string::*;

use crate::route_table::{handler_name, handler_name_of, route_path, route_path_of};
use crate::scanner::opt_text;
use crate::secret::{admits, bearer_secret, secret_for};
use crate::signature::{
    analysis, analyze, is_reference, Declaration, Param, Pattern, Signature,
    SignatureError, SignatureModel,
};
use crate::text::{push_text, text_of};
use crate::token::Style;
use crate::wire::{lemma_query_values, lookup_all, parse_query, query_text, FieldModel};

verus! {

/// The bearer guard of a secured endpoint: the names of its check type and
/// of its rejection, and the secret that requests must carry.
pub struct Guard {
    pub name: String,
    pub rejection: String,
    pub secret: String,
}

/// A guard in the abstract: check type name, rejection name, secret.
pub type GuardModel = (Seq<char>, Seq<char>, Seq<char>);

impl View for Guard {
    type V = GuardModel;

    open spec fn view(&self) -> GuardModel {
        (self.name@, self.rejection@, self.secret@)
    }
}

/// Everything generated for one declaration: its structured description,
/// the endpoint style, the names of the wire record, of the server handler
/// and of the client stub, the route path, and the guard if it is secured.
pub struct Artifacts {
    pub signature: Signature,
    pub style: Style,
    pub record_name: String,
    pub handler_name: String,
    pub stub_name: String,
    pub route_path: String,
    pub guard: Option<Guard>,
}

/// The artifacts of a declaration, in the abstract.
pub struct ArtifactsModel {
    pub signature: SignatureModel,
    pub style: Style,
    pub record_name: Seq<char>,
    pub handler_name: Seq<char>,
    pub stub_name: Seq<char>,
    pub route_path: Seq<char>,
    pub guard: Option<GuardModel>,
}

impl View for Artifacts {
    type V = ArtifactsModel;

    open spec fn view(&self) -> ArtifactsModel {
        ArtifactsModel {
            signature: self.signature@,
            style: self.style,
            record_name: self.record_name@,
            handler_name: self.handler_name@,
            stub_name: self.stub_name@,
            route_path: self.route_path@,
            guard: match self.guard {
                Some(g) => Some(g@),
                None => None,
            },
        }
    }
}

/// The guard of the declaration `name`.
pub open spec fn guard_for(name: Seq<char>) -> GuardModel {
    (name + "Secure"@, name + "Forbidden"@, secret_for(name))
}

/// The artifacts generated from a structured description.
pub open spec fn artifacts_for(sig: SignatureModel, style: Style, secured: bool) -> ArtifactsModel {
    ArtifactsModel {
        signature: sig,
        style,
        record_name: sig.name + "Data"@,
        handler_name: handler_name(sig.name),
        stub_name: sig.name + "_request"@,
        route_path: route_path(sig.name),
        guard: if secured {
            Some(guard_for(sig.name))
        } else {
            None
        },
    }
}

/// The artifacts generated from a declaration, or the reason it has none.
pub open spec fn synthesis(d: Declaration, state: Option<Seq<char>>, style: Style, secured: bool) -> Result<
    ArtifactsModel,
    SignatureError,
> {
    match analysis(d, state, style) {
        Ok(sig) => Ok(artifacts_for(sig, style, secured)),
        Err(e) => Err(e),
    }
}

fn suffixed(name: &str, suffix: &str) -> (r: String)
    ensures
        r@ == name@ + suffix@,
{
    let mut r = text_of(name);
    push_text(&mut r, suffix);
    r
}

/// Generates the artifacts of the declaration `d` for an endpoint of the
/// given style, with a bearer guard where `secured` holds.
pub fn synthesize(d: &Declaration, state: Option<String>, style: Style, secured: bool) -> (r: Result<
    Artifacts,
    SignatureError,
>)
    ensures
        match synthesis(*d, opt_text(state), style, secured) {
            Ok(a) => r is Ok && r->Ok_0@ == a,
            Err(e) => r == Err::<Artifacts, SignatureError>(e),
        },
{
    let signature = match analyze(d, state, style) {
        Ok(s) => s,
        Err(e) => {
            return Err(e);
        },
    };
    let name = signature.name.as_str();
    let guard = if secured {
        Some(
            Guard {
                name: suffixed(name, "Secure"),
                rejection: suffixed(name, "Forbidden"),
                secret: bearer_secret(name),
            },
        )
    } else {
        None
    };
    let record_name = suffixed(name, "Data");
    let handler_name = handler_name_of(name);
    let stub_name = suffixed(name, "_request");
    let route_path = route_path_of(name);
    Ok(Artifacts { signature, style, record_name, handler_name, stub_name, route_path, guard })
}

/// A query-style endpoint with a bearer guard: arguments travel as named
/// fields of the query string of a GET request.
pub fn get_api(d: &Declaration, state: Option<String>) -> (r: Result<Artifacts, SignatureError>)
    ensures
        match synthesis(*d, opt_text(state), Style::Query, true) {
            Ok(a) => r is Ok && r->Ok_0@ == a,
            Err(e) => r == Err::<Artifacts, SignatureError>(e),
        },
{
    synthesize(d, state, Style::Query, true)
}

/// A body-style endpoint with a bearer guard: arguments travel together as
/// one document in the body of a POST request.
pub fn post_api(d: &Declaration, state: Option<String>) -> (r: Result<Artifacts, SignatureError>)
    ensures
        match synthesis(*d, opt_text(state), Style::Body, true) {
            Ok(a) => r is Ok && r->Ok_0@ == a,
            Err(e) => r == Err::<Artifacts, SignatureError>(e),
        },
{
    synthesize(d, state, Style::Body, true)
}

/// A body-style endpoint without a guard.
pub fn api(d: &Declaration, state: Option<String>) -> (r: Result<Artifacts, SignatureError>)
    ensures
        match synthesis(*d, opt_text(state), Style::Body, false) {
            Ok(a) => r is Ok && r->Ok_0@ == a,
            Err(e) => r == Err::<Artifacts, SignatureError>(e),
        },
{
    synthesize(d, state, Style::Body, false)
}

/// What the host does with a request to an endpoint.
#[derive(Clone, Copy, Debug, PartialEq, Eq, Structural)]
pub enum Admission {
    /// The handler runs.
    Invoke,
    /// The request is answered as forbidden; the handler never runs.
    Forbidden,
}

/// The admission of a request with the given `authorization` header to an
/// endpoint with the given guard, in the abstract.
pub open spec fn admission(guard: Option<GuardModel>, header: Option<Seq<char>>) -> Admission {
    match guard {
        None => Admission::Invoke,
        Some(g) => if admits(header, g.2) {
            Admission::Invoke
        } else {
            Admission::Forbidden
        },
    }
}

/// Decides whether a request with the given `authorization` header reaches
/// the handler of the endpoint `a`.
pub fn decide_admission(a: &Artifacts, header: Option<&str>) -> (r: Admission)
    ensures
        r == admission(
            a@.guard,
            match header {
                Some(h) => Some(h@),
                None => None,
            },
        ),
{
    match &a.guard {
        None => Admission::Invoke,
        Some(g) => if crate::secret::authorize(header, g.secret.as_str()) {
            Admission::Invoke
        } else {
            Admission::Forbidden
        },
    }
}

/// The `authorization` value that the client stub attaches, in the
/// abstract: the guard's secret where the endpoint has a guard.
pub open spec fn stub_authorization_of(guard: Option<GuardModel>) -> Option<Seq<char>> {
    match guard {
        Some(g) => Some(g.2),
        None => None,
    }
}

/// The `authorization` value that the client stub of `a` attaches to every
/// request, if the endpoint is secured.
pub fn stub_authorization(a: &Artifacts) -> (r: Option<String>)
    ensures
        opt_text(r) == stub_authorization_of(a@.guard),
{
    match &a.guard {
        Some(g) => Some(text_of(g.secret.as_str())),
        None => None,
    }
}

/// Every request that a client stub sends reaches its handler: the header
/// it attaches is the one that the endpoint's guard admits.
pub proof fn lemma_stub_is_admitted(a: ArtifactsModel)
    ensures
        admission(a.guard, stub_authorization_of(a.guard)) == Admission::Invoke,
{
}

/// A request to a secured endpoint reaches its handler exactly when it
/// carries the endpoint's secret; one that does reaches it as a request to
/// the same endpoint without a guard would.
pub proof fn lemma_guarded_admission(
    d: Declaration,
    state: Option<Seq<char>>,
    style: Style,
    header: Option<Seq<char>>,
)
    requires
        synthesis(d, state, style, true) is Ok,
    ensures
        ({
            let a = synthesis(d, state, style, true)->Ok_0;
            let open = synthesis(d, state, style, false)->Ok_0;
            &&& header != Some(secret_for(d.name@)) ==> admission(a.guard, header)
                == Admission::Forbidden
            &&& header == Some(secret_for(d.name@)) ==> admission(a.guard, header)
                == admission(open.guard, header)
            &&& open.guard is None
        }),
{
}

/// The same declaration always yields the same route path and the same
/// bearer secret: derivation depends on the declaration alone.
pub proof fn lemma_derivation_deterministic(
    d1: Declaration,
    d2: Declaration,
    state: Option<Seq<char>>,
    style: Style,
)
    requires
        d1.name@ == d2.name@,
        d1.params@ == d2.params@,
        synthesis(d1, state, style, true) is Ok,
    ensures
        synthesis(d2, state, style, true) is Ok,
        synthesis(d1, state, style, true)->Ok_0.route_path == synthesis(
            d2,
            state,
            style,
            true,
        )->Ok_0.route_path,
        synthesis(d1, state, style, true)->Ok_0.guard == synthesis(
            d2,
            state,
            style,
            true,
        )->Ok_0.guard,
{
}

/// Where the handler takes one argument of its call to the declaration from.
#[derive(Clone, Copy, Debug, PartialEq, Eq, Structural)]
pub enum ArgSource {
    /// The decoded wire parameter at this position.
    Wire(usize),
    /// The shared state that the host injects.
    State,
}

/// One argument of the handler's call, and whether it is passed by reference.
#[derive(Clone, Copy, Debug, PartialEq, Eq, Structural)]
pub struct CallArg {
    pub source: ArgSource,
    pub by_ref: bool,
}

/// The arguments of the handler's call to the declaration, in order: the
/// wire parameters, then the shared state, each with its reference marker.
pub open spec fn call_plan(sig: SignatureModel) -> Seq<CallArg> {
    let wire = Seq::new(
        sig.params.len(),
        |i: int| CallArg { source: ArgSource::Wire(i as usize), by_ref: sig.params[i].2 },
    );
    match sig.state {
        Some((_, by_ref)) => wire.push(CallArg { source: ArgSource::State, by_ref }),
        None => wire,
    }
}

/// The arguments with which the handler of `sig` calls the declaration.
pub fn call_arguments(sig: &Signature) -> (r: Vec<CallArg>)
    ensures
        r@ == call_plan(sig@),
{
    let n = sig.params.len();
    let mut r: Vec<CallArg> = Vec::new();
    let mut i: usize = 0;
    while i < n
        invariant
            n == sig@.params.len(),
            i <= n,
            r@ =~= Seq::new(
                i as nat,
                |j: int| CallArg { source: ArgSource::Wire(j as usize), by_ref: sig@.params[j].2 },
            ),
        decreases n - i,
    {
        assert(sig@.params[i as int] == sig.params@[i as int]@);
        r.push(CallArg { source: ArgSource::Wire(i), by_ref: sig.params[i].by_ref });
        i = i + 1;
    }
    match &sig.state {
        Some(st) => r.push(CallArg { source: ArgSource::State, by_ref: st.by_ref }),
        None => {},
    }
    r
}

/// The handler calls the declaration with one argument per parameter, in
/// the declaration's order and with its reference markers: each parameter
/// that travels on the wire at its own position, and the shared state in
/// the last position where there is one.
pub proof fn lemma_call_mirrors_declaration(d: Declaration, state: Option<Seq<char>>, style: Style)
    requires
        analysis(d, state, style) is Ok,
    ensures
        ({
            let sig = analysis(d, state, style)->Ok_0;
            let plan = call_plan(sig);
            let ps = d.params@;
            &&& plan.len() == ps.len()
            &&& forall|k: int|
                0 <= k < ps.len() ==> #[trigger] plan[k].by_ref == is_reference(ps[k]->Typed_1@)
            &&& forall|k: int|
                0 <= k < sig.params.len() ==> #[trigger] plan[k].source == ArgSource::Wire(k as usize)
                    && (ps[k] matches Param::Typed(Pattern::Ident(n), _) && sig.params[k].0 == n@)
            &&& state is Some ==> plan.last().source == ArgSource::State && sig.params.len() + 1
                == ps.len()
            &&& state is None ==> sig.params.len() == ps.len()
        }),
{
    let ps = d.params@;
    crate::signature::lemma_no_pattern_error(ps);
}

/// The fields that a query-style stub sends: each wire parameter's name with
/// the codec text of its argument.
pub open spec fn stub_fields(sig: SignatureModel, args: Seq<Seq<char>>) -> Seq<FieldModel> {
    Seq::new(sig.params.len(), |i: int| (sig.params[i].0, args[i]))
}

/// A query-style stub and its handler agree: for a declaration whose
/// parameter names are distinct, the handler parses the query string that
/// the stub sends and finds, under each wire parameter's name, the very
/// codec text that the stub encoded for that argument.
pub proof fn lemma_stub_handler_round_trip(
    d: Declaration,
    state: Option<Seq<char>>,
    secured: bool,
    args: Seq<Seq<char>>,
)
    requires
        synthesis(d, state, Style::Query, secured) is Ok,
        args.len() == synthesis(d, state, Style::Query, secured)->Ok_0.signature.params.len(),
        forall|i: int, j: int|
            0 <= i < j < d.params@.len() ==> #[trigger] d.params@[i]->Typed_0->Ident_0@
                != #[trigger] d.params@[j]->Typed_0->Ident_0@,
    ensures
        ({
            let sig = synthesis(d, state, Style::Query, secured)->Ok_0.signature;
            let names = sig.params.map_values(|p: (Seq<char>, Seq<char>, bool)| p.0);
            parse_query(query_text(stub_fields(sig, args))) matches Some(p) && lookup_all(p, names)
                == Some(args)
        }),
{
    let sig = synthesis(d, state, Style::Query, secured)->Ok_0.signature;
    let fs = stub_fields(sig, args);
    assert forall|i: int, j: int| 0 <= i < j < fs.len() implies fs[i].0 != fs[j].0 by {
        assert(fs[i].0 == d.params@[i]->Typed_0->Ident_0@);
        assert(fs[j].0 == d.params@[j]->Typed_0->Ident_0@);
    }
    lemma_query_values(fs);
    assert(fs.map_values(|f: FieldModel| f.0) =~= sig.params.map_values(
        |p: (Seq<char>, Seq<char>, bool)| p.0,
    ));
    assert(fs.map_values(|f: FieldModel| f.1) =~= args);
}

} // verus!
