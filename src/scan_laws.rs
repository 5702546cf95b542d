//! What a scan of well-formed annotated declarations yields: routes in
//! order, and one shared-state type or a conflict naming two.

use vstd::prelude::*;

use crate::route_table::{entry_for, table_of, EntryModel};
use crate::scanner::{
    annotation_style, initial_model, scan, RouteModel, ScanModel, ScanOutcome,
};
use crate::token::{Style, TokenTree};

verus! {

broadcast use vstd::seq::group_seq_axioms, vstd::std_specs::vec::group_vec_axioms;

/// The text of a type written as a flat sequence of identifiers and
/// punctuation, without spaces.
pub open spec fn type_text(ty: Seq<TokenTree>) -> Seq<char>
    decreases ty.len(),
{
    if ty.len() == 0 {
        Seq::empty()
    } else {
        type_text(ty.drop_last()) + match ty.last() {
            TokenTree::Ident(s) => s@,
            TokenTree::Punct(c) => seq![c],
            _ => Seq::empty(),
        }
    }
}

/// A word that the scanner treats specially.
pub open spec fn is_keyword(s: Seq<char>) -> bool {
    s == "fn"@ || s == "pub"@ || s == "async"@ || annotation_style(s) is Some
}

/// A type argument made of identifiers and punctuation only, with no word
/// that the scanner treats specially.
pub open spec fn plain_type(ty: Seq<TokenTree>) -> bool {
    forall|i: int|
        0 <= i < ty.len() ==> (#[trigger] ty[i] is Punct || (ty[i] is Ident && !is_keyword(
            ty[i]->Ident_0@,
        )))
}

/// Tokens that hold no annotation identifier, at any depth.
pub open spec fn inert(ts: Seq<TokenTree>) -> bool
    decreases ts,
{
    if ts.len() == 0 {
        true
    } else {
        inert(ts.drop_last()) && match ts.last() {
            TokenTree::Ident(s) => annotation_style(s@) is None,
            TokenTree::Group(v) => inert(v@),
            _ => true,
        }
    }
}

/// `d` is a declaration `#[k(ty)] fn name ...`, or `#[k] fn name ...` with
/// an empty `ty`, whose annotation identifier `k` asks for `style`, and
/// whose remaining tokens are inert.
pub open spec fn annotated_declaration(
    d: Seq<TokenTree>,
    ty: Seq<TokenTree>,
    name: Seq<char>,
    style: Style,
) -> bool {
    &&& d.len() >= 4
    &&& d[0] == TokenTree::Punct('#')
    &&& d[1] is Group
    &&& d[1]->Group_0@.len() >= 1
    &&& d[1]->Group_0@[0] is Ident
    &&& annotation_style(d[1]->Group_0@[0]->Ident_0@) == Some(style)
    &&& ((d[1]->Group_0@.len() == 2 && d[1]->Group_0@[1] is Group && d[1]->Group_0@[1]->Group_0@
        == ty) || (d[1]->Group_0@.len() == 1 && ty.len() == 0))
    &&& d[2] is Ident
    &&& d[2]->Ident_0@ == "fn"@
    &&& d[3] is Ident
    &&& d[3]->Ident_0@ == name
    &&& !is_keyword(name)
    &&& plain_type(ty)
    &&& inert(d.subrange(4, d.len() as int))
}

/// A scan of `a + b` is the scan of `a` followed by the scan of `b`.
pub proof fn lemma_scan_concat(a: Seq<TokenTree>, b: Seq<TokenTree>, m: ScanModel)
    ensures
        scan(a + b, m) == match scan(a, m) {
            Err(e) => Err(e),
            Ok((m1, r1)) => match scan(b, m1) {
                Err(e) => Err(e),
                Ok((m2, r2)) => Ok((m2, r1 + r2)),
            },
        },
    decreases b.len(),
{
    if b.len() == 0 {
        assert(a + b =~= a);
        match scan(a, m) {
            Err(e) => {},
            Ok((m1, r1)) => {
                assert(r1 + Seq::<RouteModel>::empty() =~= r1);
            },
        }
    } else {
        lemma_scan_concat(a, b.drop_last(), m);
        assert((a + b).drop_last() =~= a + b.drop_last());
        assert((a + b).last() == b.last());
        match scan(a, m) {
            Err(e) => {},
            Ok((m1, r1)) => match scan(b.drop_last(), m1) {
                Err(e) => {},
                Ok((m2, r2)) => {
                    let next: ScanOutcome = match b.last() {
                        TokenTree::Ident(s) => crate::scanner::ident_step(m2, s@),
                        TokenTree::Punct(c) => Ok((crate::scanner::punct_step(m2, c), Seq::empty())),
                        TokenTree::Literal(_) => Ok((m2, Seq::empty())),
                        TokenTree::Group(v) => scan(v@, m2),
                    };
                    match next {
                        Err(e) => {},
                        Ok((m3, r3)) => {
                            assert(r1 + r2 + r3 =~= r1 + (r2 + r3));
                        },
                    }
                },
            },
        }
    }
}

/// Inert tokens, scanned with no pending annotation and an empty argument,
/// find nothing and leave the annotation, the argument and the group's
/// shared-state type as they were.
pub proof fn lemma_scan_inert(ts: Seq<TokenTree>, m: ScanModel)
    requires
        inert(ts),
        m.annotation is None,
        m.buffer.len() == 0,
    ensures
        scan(ts, m) matches Ok((m1, rs)) && rs.len() == 0 && m1.annotation is None
            && m1.buffer.len() == 0 && m1.group_state == m.group_state,
    decreases ts,
{
    if ts.len() > 0 {
        lemma_scan_inert(ts.drop_last(), m);
        let m1 = scan(ts.drop_last(), m)->Ok_0.0;
        match ts.last() {
            TokenTree::Group(v) => {
                assert(decreases_to!(ts => ts.last()));
                lemma_scan_inert(v@, m1);
            },
            _ => {},
        }
    }
}

/// A plain type argument, scanned while its annotation is pending, adds its
/// text to the collected argument and changes nothing else.
pub proof fn lemma_scan_type(ty: Seq<TokenTree>, m: ScanModel)
    requires
        plain_type(ty),
        m.annotation is Some,
        !m.after_fn,
    ensures
        scan(ty, m) == Ok::<(ScanModel, Seq<RouteModel>), (Seq<char>, Seq<char>)>(
            (ScanModel { buffer: m.buffer + type_text(ty), ..m }, Seq::empty()),
        ),
    decreases ty.len(),
{
    if ty.len() == 0 {
        assert(m.buffer + type_text(ty) =~= m.buffer);
    } else {
        let pre = ty.drop_last();
        assert(plain_type(pre)) by {
            assert forall|i: int| 0 <= i < pre.len() implies (#[trigger] pre[i] is Punct || (
            pre[i] is Ident && !is_keyword(pre[i]->Ident_0@))) by {
                assert(pre[i] == ty[i]);
            }
        }
        lemma_scan_type(pre, m);
        assert(ty.last() == ty[ty.len() - 1]);
        match ty.last() {
            TokenTree::Ident(s) => {
                assert(m.buffer + type_text(pre) + s@ =~= m.buffer + type_text(ty));
            },
            TokenTree::Punct(c) => {
                assert((m.buffer + type_text(pre)).push(c) =~= m.buffer + type_text(ty));
            },
            _ => {},
        }
        assert(Seq::<RouteModel>::empty() + Seq::<RouteModel>::empty() =~= Seq::<RouteModel>::empty());
    }
}

/// The state after an annotated declaration whose type text is `t`, reached
/// from a state whose shared-state type is `g`: an error if `t` differs from
/// `g`, else `g`, or `t` where there was none.
pub open spec fn after_declaration(g: Option<Seq<char>>, t: Seq<char>) -> Result<
    Option<Seq<char>>,
    (Seq<char>, Seq<char>),
> {
    if t.len() == 0 {
        Ok(g)
    } else {
        match g {
            Some(h) => if h != t {
                Err((h, t))
            } else {
                Ok(g)
            },
            None => Ok(Some(t)),
        }
    }
}

/// One annotated declaration, scanned from a state with no pending
/// annotation: it is found as a route, and its type argument is checked
/// against the group's shared-state type.
pub proof fn lemma_scan_declaration(
    d: Seq<TokenTree>,
    ty: Seq<TokenTree>,
    name: Seq<char>,
    style: Style,
    m: ScanModel,
)
    requires
        annotated_declaration(d, ty, name, style),
        m.annotation is None,
        m.buffer.len() == 0,
    ensures
        match after_declaration(m.group_state, type_text(ty)) {
            Err(e) => scan(d, m) == Err::<(ScanModel, Seq<RouteModel>), (Seq<char>, Seq<char>)>(e),
            Ok(g) => scan(d, m) matches Ok((m1, rs)) && rs == seq![(name, style)]
                && m1.annotation is None && m1.buffer.len() == 0 && m1.group_state == g,
        },
{
    let t = type_text(ty);
    reveal_strlit("fn");
    reveal_strlit("get_api");
    reveal_strlit("post_api");
    reveal_strlit("api");
    assert(t.len() == 0 ==> t =~= Seq::<char>::empty());
    let head = d.subrange(0, 4);
    let rest = d.subrange(4, d.len() as int);
    assert(d =~= head + rest);
    let inner = d[1]->Group_0@;
    let k = inner[0]->Ident_0@;
    // `#` changes nothing while no annotation is pending.
    assert(head.subrange(0, 1).drop_last() =~= Seq::<TokenTree>::empty());
    assert(head.subrange(0, 1).last() == TokenTree::Punct('#'));
    assert(scan(Seq::<TokenTree>::empty(), m) == Ok::<(ScanModel, Seq<RouteModel>), (Seq<char>, Seq<char>)>((m, Seq::empty())));
    assert(scan(head.subrange(0, 1).drop_last(), m) == scan(Seq::<TokenTree>::empty(), m));
    assert(Seq::<RouteModel>::empty() + Seq::<RouteModel>::empty() =~= Seq::<RouteModel>::empty());
    let m_a = scan(head.subrange(0, 1), m)->Ok_0.0;
    assert(m_a == m);
    // `[k(ty)]` records the annotation and collects the type text.
    assert(inner.subrange(0, 1).drop_last() =~= Seq::<TokenTree>::empty());
    assert(inner.subrange(0, 1) =~= seq![inner[0]]);
    assert(scan(Seq::<TokenTree>::empty(), m_a) == Ok::<(ScanModel, Seq<RouteModel>), (Seq<char>, Seq<char>)>((m_a, Seq::empty())));
    assert(scan(inner.subrange(0, 1).drop_last(), m_a) == scan(Seq::<TokenTree>::empty(), m_a));
    let m_k = ScanModel { annotation: Some(style), after_fn: false, buffer: Seq::empty(), ..m };
    assert(scan(inner.subrange(0, 1), m_a) == Ok::<(ScanModel, Seq<RouteModel>), (Seq<char>, Seq<char>)>((m_k, Seq::empty()))) by {
        assert(k.len() != 2);
        assert(!(k == "fn"@));
    }
    let m_t = ScanModel { buffer: t, ..m_k };
    if inner.len() == 2 {
        assert(inner.drop_last() =~= inner.subrange(0, 1));
        assert(decreases_to!(inner => inner[1]));
        lemma_scan_type(ty, m_k);
        assert(Seq::<char>::empty() + t =~= t);
    } else {
        assert(inner =~= inner.subrange(0, 1));
        assert(m_t == m_k);
    }
    assert(scan(inner, m_a) == Ok::<(ScanModel, Seq<RouteModel>), (Seq<char>, Seq<char>)>((m_t, Seq::empty())));
    assert(head.subrange(0, 2).drop_last() =~= head.subrange(0, 1));
    assert(scan(head.subrange(0, 2), m) == Ok::<(ScanModel, Seq<RouteModel>), (Seq<char>, Seq<char>)>((m_t, Seq::empty())));
    // `fn` closes the argument.
    assert(head.subrange(0, 3).drop_last() =~= head.subrange(0, 2));
    assert(head.drop_last() =~= head.subrange(0, 3));
    match after_declaration(m.group_state, t) {
        Err(e) => {
            assert(scan(head.subrange(0, 3), m) == Err::<(ScanModel, Seq<RouteModel>), (Seq<char>, Seq<char>)>(e));
            crate::scanner::lemma_scan_error_persists(head, m, 3);
            lemma_scan_concat(head, rest, m);
        },
        Ok(g) => {
            let m_f = ScanModel { annotation: Some(style), after_fn: true, buffer: Seq::empty(), group_state: g };
            assert(head.subrange(0, 3).last() == d[2]);
            assert(annotation_style("fn"@) is None);
            assert(scan(head.subrange(0, 3), m) == Ok::<(ScanModel, Seq<RouteModel>), (Seq<char>, Seq<char>)>((m_f, Seq::empty())));
            let m_n = ScanModel { annotation: None, after_fn: false, buffer: Seq::empty(), group_state: g };
            assert(!(name == "fn"@));
            assert(scan(head, m) == Ok::<(ScanModel, Seq<RouteModel>), (Seq<char>, Seq<char>)>((m_n, seq![(name, style)])));
            lemma_scan_inert(rest, m_n);
            lemma_scan_concat(head, rest, m);
            let rs = scan(rest, m_n)->Ok_0.1;
            assert(seq![(name, style)] + rs =~= seq![(name, style)]);
        },
    }
}

/// Two annotated declarations in one group: where their shared-state types
/// differ, the scan fails and names the first type and then the second;
/// where they agree, it succeeds with that one type for the group and a
/// route for each declaration, in order.
pub proof fn lemma_state_conflict(
    d1: Seq<TokenTree>,
    ty1: Seq<TokenTree>,
    name1: Seq<char>,
    style1: Style,
    d2: Seq<TokenTree>,
    ty2: Seq<TokenTree>,
    name2: Seq<char>,
    style2: Style,
)
    requires
        annotated_declaration(d1, ty1, name1, style1),
        annotated_declaration(d2, ty2, name2, style2),
        type_text(ty1).len() > 0,
        type_text(ty2).len() > 0,
    ensures
        type_text(ty1) != type_text(ty2) ==> table_of(d1 + d2) == Err::<
            (Option<Seq<char>>, Seq<EntryModel>),
            (Seq<char>, Seq<char>),
        >((type_text(ty1), type_text(ty2))),
        type_text(ty1) == type_text(ty2) ==> table_of(d1 + d2) == Ok::<
            (Option<Seq<char>>, Seq<EntryModel>),
            (Seq<char>, Seq<char>),
        >((Some(type_text(ty1)), seq![entry_for((name1, style1)), entry_for((name2, style2))])),
{
    let m0 = initial_model();
    lemma_scan_declaration(d1, ty1, name1, style1, m0);
    let m1 = scan(d1, m0)->Ok_0.0;
    lemma_scan_declaration(d2, ty2, name2, style2, m1);
    lemma_scan_concat(d1, d2, m0);
    if type_text(ty1) == type_text(ty2) {
        let rs = seq![(name1, style1)] + seq![(name2, style2)];
        assert(rs.map_values(|f: RouteModel| entry_for(f)) =~= seq![
            entry_for((name1, style1)),
            entry_for((name2, style2)),
        ]);
    }
}

/// The declarations `ds` written one after the other.
pub open spec fn concat_all(ds: Seq<Seq<TokenTree>>) -> Seq<TokenTree>
    decreases ds.len(),
{
    if ds.len() == 0 {
        Seq::empty()
    } else {
        concat_all(ds.drop_last()) + ds.last()
    }
}

proof fn lemma_scan_agreeing(
    ds: Seq<Seq<TokenTree>>,
    tys: Seq<Seq<TokenTree>>,
    names: Seq<Seq<char>>,
    styles: Seq<Style>,
    t: Seq<char>,
)
    requires
        ds.len() == tys.len() == names.len() == styles.len(),
        t.len() > 0,
        forall|i: int| 0 <= i < ds.len() ==> #[trigger] annotated_declaration(ds[i], tys[i], names[i], styles[i]),
        forall|i: int| 0 <= i < ds.len() ==> #[trigger] type_text(tys[i]) == t,
    ensures
        scan(concat_all(ds), initial_model()) matches Ok((m, rs)) && m.annotation is None
            && m.buffer.len() == 0 && m.group_state == (if ds.len() == 0 {
            None
        } else {
            Some(t)
        }) && rs == Seq::new(ds.len(), |i: int| (names[i], styles[i])),
    decreases ds.len(),
{
    let n = ds.len();
    if n == 0 {
        assert(Seq::<RouteModel>::empty() =~= Seq::new(0, |i: int| (names[i], styles[i])));
    } else {
        let k = n - 1;
        lemma_scan_agreeing(ds.drop_last(), tys.drop_last(), names.drop_last(), styles.drop_last(), t);
        let m0 = initial_model();
        let prev = concat_all(ds.drop_last());
        let mp = scan(prev, m0)->Ok_0.0;
        let rp = scan(prev, m0)->Ok_0.1;
        assert(annotated_declaration(ds[k], tys[k], names[k], styles[k]));
        assert(type_text(tys[k]) == t);
        lemma_scan_declaration(ds[k], tys[k], names[k], styles[k], mp);
        lemma_scan_concat(prev, ds[k], m0);
        assert(rp + seq![(names[k], styles[k])] =~= Seq::new(n, |i: int| (names[i], styles[i])));
    }
}

/// Any number of annotated declarations in one group that all carry the
/// same shared-state type: the scan succeeds with exactly that one type for
/// the group and a route for each declaration, in order.
pub proof fn lemma_agreeing_states(
    ds: Seq<Seq<TokenTree>>,
    tys: Seq<Seq<TokenTree>>,
    names: Seq<Seq<char>>,
    styles: Seq<Style>,
    t: Seq<char>,
)
    requires
        ds.len() == tys.len() == names.len() == styles.len(),
        ds.len() > 0,
        t.len() > 0,
        forall|i: int| 0 <= i < ds.len() ==> #[trigger] annotated_declaration(ds[i], tys[i], names[i], styles[i]),
        forall|i: int| 0 <= i < ds.len() ==> #[trigger] type_text(tys[i]) == t,
    ensures
        table_of(concat_all(ds)) == Ok::<(Option<Seq<char>>, Seq<EntryModel>), (Seq<char>, Seq<char>)>(
            (Some(t), Seq::new(ds.len(), |i: int| entry_for((names[i], styles[i])))),
        ),
{
    lemma_scan_agreeing(ds, tys, names, styles, t);
    let rs = Seq::new(ds.len(), |i: int| (names[i], styles[i]));
    assert(rs.map_values(|f: RouteModel| entry_for(f)) =~= Seq::new(
        ds.len(),
        |i: int| entry_for((names[i], styles[i])),
    ));
}

/// The group's shared-state type after the first `n` segments of a group,
/// where `is_decl[i]` tells whether segment `i` is an annotated declaration
/// with type argument `tys[i]`: the first conflict, or the one type if any.
pub open spec fn group_outcome(is_decl: Seq<bool>, tys: Seq<Seq<TokenTree>>, n: nat) -> Result<
    Option<Seq<char>>,
    (Seq<char>, Seq<char>),
>
    decreases n,
{
    if n == 0 {
        Ok(None)
    } else {
        match group_outcome(is_decl, tys, (n - 1) as nat) {
            Err(e) => Err(e),
            Ok(g) => if is_decl[n - 1] {
                after_declaration(g, type_text(tys[n - 1]))
            } else {
                Ok(g)
            },
        }
    }
}

/// The routes of the annotated declarations among the first `n` segments.
pub open spec fn group_routes(is_decl: Seq<bool>, names: Seq<Seq<char>>, styles: Seq<Style>, n: nat) -> Seq<
    RouteModel,
>
    decreases n,
{
    if n == 0 {
        Seq::empty()
    } else {
        group_routes(is_decl, names, styles, (n - 1) as nat) + if is_decl[n - 1] {
            seq![(names[n - 1], styles[n - 1])]
        } else {
            Seq::empty()
        }
    }
}

/// Segment `i` is an annotated declaration where `is_decl[i]` holds, and
/// inert tokens otherwise.
pub open spec fn well_formed_segments(
    ds: Seq<Seq<TokenTree>>,
    is_decl: Seq<bool>,
    tys: Seq<Seq<TokenTree>>,
    names: Seq<Seq<char>>,
    styles: Seq<Style>,
) -> bool {
    &&& ds.len() == is_decl.len() == tys.len() == names.len() == styles.len()
    &&& forall|i: int|
        0 <= i < ds.len() ==> (if #[trigger] is_decl[i] {
            annotated_declaration(ds[i], tys[i], names[i], styles[i])
        } else {
            inert(ds[i])
        })
}

proof fn lemma_scan_segments(
    ds: Seq<Seq<TokenTree>>,
    is_decl: Seq<bool>,
    tys: Seq<Seq<TokenTree>>,
    names: Seq<Seq<char>>,
    styles: Seq<Style>,
    n: nat,
)
    requires
        well_formed_segments(ds, is_decl, tys, names, styles),
        n <= ds.len(),
    ensures
        match group_outcome(is_decl, tys, n) {
            Err(e) => scan(concat_all(ds.subrange(0, n as int)), initial_model()) == Err::<
                (ScanModel, Seq<RouteModel>),
                (Seq<char>, Seq<char>),
            >(e),
            Ok(g) => scan(concat_all(ds.subrange(0, n as int)), initial_model()) matches Ok((m, rs))
                && m.annotation is None && m.buffer.len() == 0 && m.group_state == g && rs
                == group_routes(is_decl, names, styles, n),
        },
    decreases n,
{
    let m0 = initial_model();
    if n == 0 {
        assert(ds.subrange(0, 0) =~= Seq::<Seq<TokenTree>>::empty());
    } else {
        let k = n - 1;
        lemma_scan_segments(ds, is_decl, tys, names, styles, k as nat);
        let cur = ds.subrange(0, n as int);
        assert(cur.drop_last() =~= ds.subrange(0, k));
        assert(cur.last() == ds[k]);
        let pre = concat_all(ds.subrange(0, k));
        assert(concat_all(cur) == pre + ds[k]);
        lemma_scan_concat(pre, ds[k], m0);
        match scan(pre, m0) {
            Err(e) => {},
            Ok((mp, rp)) => {
                if is_decl[k] {
                    lemma_scan_declaration(ds[k], tys[k], names[k], styles[k], mp);
                } else {
                    assert(inert(ds[k]));
                    lemma_scan_inert(ds[k], mp);
                    let rs = scan(ds[k], mp)->Ok_0.1;
                    assert(rp + rs =~= rp + Seq::<RouteModel>::empty());
                }
            },
        }
    }
}

/// A group made of annotated declarations, with or without a type argument,
/// and of inert tokens between them: its scan fails with the first pair of
/// different shared-state types, first the one recorded and then the one
/// that disagrees; otherwise it yields a route for each declaration, in
/// order, and the one type that the declarations name, if any.
pub proof fn lemma_group_state(
    ds: Seq<Seq<TokenTree>>,
    is_decl: Seq<bool>,
    tys: Seq<Seq<TokenTree>>,
    names: Seq<Seq<char>>,
    styles: Seq<Style>,
)
    requires
        well_formed_segments(ds, is_decl, tys, names, styles),
    ensures
        match group_outcome(is_decl, tys, ds.len()) {
            Err(e) => table_of(concat_all(ds)) == Err::<
                (Option<Seq<char>>, Seq<EntryModel>),
                (Seq<char>, Seq<char>),
            >(e),
            Ok(g) => table_of(concat_all(ds)) == Ok::<
                (Option<Seq<char>>, Seq<EntryModel>),
                (Seq<char>, Seq<char>),
            >((g, group_routes(is_decl, names, styles, ds.len()).map_values(|f: RouteModel| entry_for(f)))),
        },
{
    lemma_scan_segments(ds, is_decl, tys, names, styles, ds.len());
    assert(ds.subrange(0, ds.len() as int) =~= ds);
}

/// A nested group is scanned as if its contents stood in its place, so
/// declarations inside blocks and modules are found as at the top level.
pub proof fn lemma_group_transparent(a: Seq<TokenTree>, g: TokenTree, b: Seq<TokenTree>, m: ScanModel)
    requires
        g is Group,
    ensures
        scan(a + seq![g] + b, m) == scan(a + g->Group_0@ + b, m),
{
    let v = g->Group_0@;
    lemma_scan_concat(a, seq![g], m);
    lemma_scan_concat(a, v, m);
    lemma_scan_concat(a + seq![g], b, m);
    lemma_scan_concat(a + v, b, m);
    assert(seq![g].drop_last() =~= Seq::<TokenTree>::empty());
    assert(seq![g].last() == g);
    match scan(a, m) {
        Err(e) => {},
        Ok((m1, r1)) => {
            assert(scan(Seq::<TokenTree>::empty(), m1) == Ok::<(ScanModel, Seq<RouteModel>), (Seq<char>, Seq<char>)>((m1, Seq::empty())));
            match scan(v, m1) {
                Err(e) => {},
                Ok((m2, r2)) => {
                    assert(Seq::<RouteModel>::empty() + r2 =~= r2);
                },
            }
        },
    }
}

} // verus!
