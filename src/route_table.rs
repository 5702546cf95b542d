//! Route tables: path to handler registrations for a scanned group.

use vstd::prelude::*;
use vstd::string::*;

use crate::scanner::{
    initial_model, opt_text, routes_view, scan, scan_group, FoundRoute, RouteModel, ScanResult,
    StateConflict,
};
use crate::text::{push_char, push_text, same_text, text_of};
use crate::token::{Style, TokenTree};

verus! {

broadcast use vstd::seq::group_seq_axioms, vstd::std_specs::vec::group_vec_axioms;

/// The path under which a declaration is mounted: a slash and its name.
pub open spec fn route_path(name: Seq<char>) -> Seq<char> {
    seq!['/'] + name
}

/// The name of the generated handler of a declaration.
pub open spec fn handler_name(name: Seq<char>) -> Seq<char> {
    name + "_route"@
}

/// A route entry in the abstract: path, style and handler name.
pub type EntryModel = (Seq<char>, Style, Seq<char>);

/// The entry that a discovered route contributes to the table.
pub open spec fn entry_for(r: RouteModel) -> EntryModel {
    (route_path(r.0), r.1, handler_name(r.0))
}

/// One registration of the route table.
pub struct RouteEntry {
    pub path: String,
    pub style: Style,
    pub handler: String,
}

impl View for RouteEntry {
    type V = EntryModel;

    open spec fn view(&self) -> EntryModel {
        (self.path@, self.style, self.handler@)
    }
}

/// The entries of a table, as views.
pub open spec fn entries_view(v: Seq<RouteEntry>) -> Seq<EntryModel> {
    v.map_values(|e: RouteEntry| e@)
}

/// Path to handler registrations, with the shared-state type that the table
/// is parameterised by, if the group declared one.
pub struct RouteTable {
    pub state: Option<String>,
    pub entries: Vec<RouteEntry>,
}

/// The path under which the declaration `name` is mounted.
pub fn route_path_of(name: &str) -> (r: String)
    ensures
        r@ == route_path(name@),
{
    let mut r = String::new();
    push_char(&mut r, '/');
    push_text(&mut r, name);
    r
}

/// The name of the generated handler of the declaration `name`.
pub fn handler_name_of(name: &str) -> (r: String)
    ensures
        r@ == handler_name(name@),
{
    let mut r = text_of(name);
    push_text(&mut r, "_route");
    r
}

/// The table entry of one discovered route.
pub fn route_entry(found: &FoundRoute) -> (r: RouteEntry)
    ensures
        r@ == entry_for(found@),
{
    RouteEntry {
        path: route_path_of(found.name.as_str()),
        style: found.style,
        handler: handler_name_of(found.name.as_str()),
    }
}

fn copy_opt_text(o: &Option<String>) -> (r: Option<String>)
    ensures
        opt_text(r) == opt_text(*o),
{
    match o {
        Some(s) => Some(text_of(s.as_str())),
        None => None,
    }
}

/// The route table of a scanned group: one entry per discovered route, in
/// order, under the group's shared-state type.
pub fn build_route_table(found: &ScanResult) -> (r: RouteTable)
    ensures
        entries_view(r.entries@) == routes_view(found.routes@).map_values(
            |f: RouteModel| entry_for(f),
        ),
        opt_text(r.state) == opt_text(found.state),
{
    let mut entries: Vec<RouteEntry> = Vec::new();
    let n = found.routes.len();
    let mut i: usize = 0;
    while i < n
        invariant
            n == found.routes@.len(),
            i <= n,
            entries@.len() == i,
            forall|j: int| 0 <= j < i ==> #[trigger] entries@[j]@ == entry_for(found.routes@[j]@),
        decreases n - i,
    {
        entries.push(route_entry(&found.routes[i]));
        i = i + 1;
    }
    assert(entries_view(entries@) =~= routes_view(found.routes@).map_values(
        |f: RouteModel| entry_for(f),
    ));
    RouteTable { state: copy_opt_text(&found.state), entries }
}

/// The route table of a group in the abstract, or the conflict that stops it.
pub open spec fn table_of(ts: Seq<TokenTree>) -> Result<
    (Option<Seq<char>>, Seq<EntryModel>),
    (Seq<char>, Seq<char>),
> {
    match scan(ts, initial_model()) {
        Ok((m, rs)) => Ok((m.group_state, rs.map_values(|f: RouteModel| entry_for(f)))),
        Err(e) => Err(e),
    }
}

/// Whether a table matches an abstract one.
pub open spec fn table_is(t: RouteTable, a: (Option<Seq<char>>, Seq<EntryModel>)) -> bool {
    opt_text(t.state) == a.0 && entries_view(t.entries@) == a.1
}

/// Whether a conflict matches an abstract one.
pub open spec fn conflict_is(c: StateConflict, a: (Seq<char>, Seq<char>)) -> bool {
    c.first@ == a.0 && c.second@ == a.1
}

/// The route table of a group of declarations.
pub fn routes(tokens: &Vec<TokenTree>) -> (r: Result<RouteTable, StateConflict>)
    ensures
        match table_of(tokens@) {
            Ok(a) => r is Ok && table_is(r->Ok_0, a),
            Err(a) => r is Err && conflict_is(r->Err_0, a),
        },
{
    match scan_group(tokens) {
        Ok(found) => Ok(build_route_table(&found)),
        Err(e) => Err(e),
    }
}

/// The name and the contents of a module item `mod name { ... }`: the first
/// token is the keyword, the second the name, the third the braced body.
pub open spec fn module_parts(ts: Seq<TokenTree>) -> Option<(Seq<char>, Seq<TokenTree>)> {
    if ts.len() >= 3 && ts[1] is Ident && ts[2] is Group {
        Some((ts[1]->Ident_0@, ts[2]->Group_0@))
    } else {
        None
    }
}

/// Why a module's route table could not be built.
pub enum ModuleError {
    /// The item is not a module with a name and a body.
    NotAModule,
    /// Two declarations of the module name different shared-state types.
    Conflict(StateConflict),
}

/// The route table of a module, with the module's name.
pub struct ModuleRoutes {
    pub module_name: String,
    pub table: RouteTable,
}

/// The route table of the declarations inside a module item.
pub fn routes_module(tokens: &Vec<TokenTree>) -> (r: Result<ModuleRoutes, ModuleError>)
    ensures
        match module_parts(tokens@) {
            None => r matches Err(ModuleError::NotAModule),
            Some((name, body)) => match table_of(body) {
                Ok(a) => r is Ok && r->Ok_0.module_name@ == name && table_is(r->Ok_0.table, a),
                Err(a) => r matches Err(ModuleError::Conflict(c)) && conflict_is(c, a),
            },
        },
{
    if tokens.len() < 3 {
        return Err(ModuleError::NotAModule);
    }
    let name = match &tokens[1] {
        TokenTree::Ident(s) => text_of(s.as_str()),
        _ => {
            return Err(ModuleError::NotAModule);
        },
    };
    match &tokens[2] {
        TokenTree::Group(body) => match routes(body) {
            Ok(table) => Ok(ModuleRoutes { module_name: name, table }),
            Err(e) => Err(ModuleError::Conflict(e)),
        },
        _ => Err(ModuleError::NotAModule),
    }
}

/// An identifier that marks a declaration for the handler list: the
/// query-style or the secured body-style annotation.
pub open spec fn lists_handler(s: Seq<char>) -> bool {
    s == "get_api"@ || s == "post_api"@
}

/// The state of a handler-list scan: an annotation is pending, and the
/// previous identifier was `fn`.
pub type ListState = (bool, bool);

/// The handler names that a scan of `ts` from state `st` lists, with the
/// state reached; groups are scanned in place.
pub open spec fn list_scan(ts: Seq<TokenTree>, st: ListState) -> (ListState, Seq<Seq<char>>)
    decreases ts,
{
    if ts.len() == 0 {
        (st, Seq::empty())
    } else {
        let (st1, r1) = list_scan(ts.drop_last(), st);
        let (st2, r2) = match ts.last() {
            TokenTree::Ident(s) => {
                let (pending, found) = if st1.1 && st1.0 {
                    (false, seq![handler_name(s@)])
                } else {
                    (st1.0, Seq::empty())
                };
                ((pending || lists_handler(s@), s@ == "fn"@), found)
            },
            TokenTree::Group(v) => list_scan(v@, st1),
            _ => (st1, Seq::empty()),
        };
        (st2, r1 + r2)
    }
}

fn list_tokens(tokens: &Vec<TokenTree>, st: &mut ListState, out: &mut Vec<String>)
    ensures
        ({
            let (st1, names) = list_scan(tokens@, *old(st));
            &&& *final(st) == st1
            &&& final(out)@.map_values(|s: String| s@) == old(out)@.map_values(|s: String| s@) + names
        }),
    decreases tokens,
{
    let ghost st0 = *st;
    let ghost o0 = out@.map_values(|s: String| s@);
    let n = tokens.len();
    let mut i: usize = 0;
    assert(tokens@.subrange(0, 0) =~= Seq::<TokenTree>::empty());
    assert(o0 + Seq::<Seq<char>>::empty() =~= o0);
    while i < n
        invariant
            n == tokens@.len(),
            i <= n,
            st0 == *old(st),
            o0 == old(out)@.map_values(|s: String| s@),
            *st == list_scan(tokens@.subrange(0, i as int), st0).0,
            out@.map_values(|s: String| s@) == o0 + list_scan(tokens@.subrange(0, i as int), st0).1,
        decreases n - i,
    {
        let ghost pre = tokens@.subrange(0, i as int);
        let ghost next = tokens@.subrange(0, i + 1);
        let ghost before = out@.map_values(|s: String| s@);
        assert(next.drop_last() =~= pre);
        assert(next.last() == tokens@[i as int]);
        match &tokens[i] {
            TokenTree::Ident(s) => {
                let (pending, after) = *st;
                let mut now_pending = pending;
                if after && pending {
                    out.push(handler_name_of(s.as_str()));
                    now_pending = false;
                    assert(out@.map_values(|s: String| s@) =~= before + seq![handler_name(s@)]);
                } else {
                    assert(out@.map_values(|s: String| s@) =~= before + Seq::<Seq<char>>::empty());
                }
                let marks = same_text(s.as_str(), "get_api") || same_text(s.as_str(), "post_api");
                *st = (now_pending || marks, same_text(s.as_str(), "fn"));
            },
            TokenTree::Group(v) => {
                assert(decreases_to!(tokens => tokens@[i as int]));
                list_tokens(v, st, out);
            },
            _ => {
                assert(out@.map_values(|s: String| s@) =~= before + Seq::<Seq<char>>::empty());
            },
        }
        assert(out@.map_values(|s: String| s@) =~= o0 + list_scan(next, st0).1);
        i = i + 1;
    }
    assert(tokens@.subrange(0, n as int) =~= tokens@);
}

/// The handlers to mount for a module item, with the module's name.
pub struct HandlerList {
    pub module_name: String,
    pub handlers: Vec<String>,
}

/// The handler names of the declarations inside a module item that carry
/// the query-style or the secured body-style annotation, at any depth, in
/// order. The module's declarations must agree on one shared-state type:
/// two that name different types are a conflict, reported with both.
pub fn generate_rocket_routes(tokens: &Vec<TokenTree>) -> (r: Result<HandlerList, ModuleError>)
    ensures
        match module_parts(tokens@) {
            None => r matches Err(ModuleError::NotAModule),
            Some((name, body)) => match table_of(body) {
                Err(a) => r matches Err(ModuleError::Conflict(c)) && conflict_is(c, a),
                Ok(_) => r is Ok && r->Ok_0.module_name@ == name
                    && r->Ok_0.handlers@.map_values(|s: String| s@) == list_scan(body, (false, false)).1,
            },
        },
{
    if tokens.len() < 3 {
        return Err(ModuleError::NotAModule);
    }
    let name = match &tokens[1] {
        TokenTree::Ident(s) => text_of(s.as_str()),
        _ => {
            return Err(ModuleError::NotAModule);
        },
    };
    match &tokens[2] {
        TokenTree::Group(body) => {
            if let Err(e) = scan_group(body) {
                return Err(ModuleError::Conflict(e));
            }
            let mut st: ListState = (false, false);
            let mut handlers: Vec<String> = Vec::new();
            assert(handlers@.map_values(|s: String| s@) =~= Seq::<Seq<char>>::empty());
            list_tokens(body, &mut st, &mut handlers);
            assert(handlers@.map_values(|s: String| s@) =~= Seq::<Seq<char>>::empty() + list_scan(body@, (false, false)).1);
            Ok(HandlerList { module_name: name, handlers })
        },
        _ => Err(ModuleError::NotAModule),
    }
}

} // verus!
