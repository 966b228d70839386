//! What the deep selector helper does on a page: a model of the page's
//! element tree with its open shadow roots, the helper's function body as
//! a small program whose rendering is the helper's text, and that
//! program's meaning on the model.
use vstd::prelude::*;

use crate::js::deep_query_selector_src;

verus! {

/// An element of a page, as the selector helper sees it: whether it
/// matches the selector, its children, and the top-level nodes of its open
/// shadow root when it hosts one.
pub struct El {
    pub hit: bool,
    pub children: Seq<El>,
    pub shadow: Option<Seq<El>>,
}

/// The elements under a root whose top-level nodes are `ns`, in tree
/// order, without entering shadow roots: what `querySelectorAll('*')`
/// lists.
pub open spec fn tree(ns: Seq<El>) -> Seq<El>
    decreases ns,
{
    if ns.len() == 0 {
        Seq::empty()
    } else {
        seq![ns[0]] + tree(ns[0].children) + tree(ns.drop_first())
    }
}

/// The first of `es[k..]` that matches: what `querySelector` gives.
pub open spec fn first_hit(es: Seq<El>, k: int) -> Option<El>
    decreases es.len() - k,
{
    if k < 0 || k >= es.len() {
        None
    } else if es[k].hit {
        Some(es[k])
    } else {
        first_hit(es, k + 1)
    }
}

/// A top-level statement of the helper's body.
pub enum Top {
    /// `var direct = root.querySelector(selector);`
    LetDirect,
    /// `if (direct) return direct;`
    IfDirectReturn,
    /// `var hosts = root.querySelectorAll('*');`
    LetHosts,
    /// `for (var i = 0; i < hosts.length; i++) { .. }`
    ForHosts(Seq<Inner>),
    /// `return null;`
    ReturnNull,
}

/// A statement of the loop over `hosts`.
pub enum Inner {
    /// `if (hosts[i].shadowRoot) { .. }`
    IfShadow(Seq<Body>),
}

/// A statement run on a host's shadow root.
pub enum Body {
    /// `var found = __browsectl_deepQuerySelector(hosts[i].shadowRoot, selector);`
    LetFound,
    /// `if (found) return found;`
    IfFoundReturn,
    /// `return __browsectl_deepQuerySelector(hosts[i].shadowRoot, selector);`
    ReturnDeep,
}

pub open spec fn body_text(b: Body) -> Seq<char> {
    match b {
        Body::LetFound => "\n                var found = __browsectl_deepQuerySelector(hosts[i].shadowRoot, selector);"@,
        Body::IfFoundReturn => "\n                if (found) return found;"@,
        Body::ReturnDeep => "\n                return __browsectl_deepQuerySelector(hosts[i].shadowRoot, selector);"@,
    }
}

pub open spec fn bodies_text(bs: Seq<Body>) -> Seq<char>
    decreases bs.len(),
{
    if bs.len() == 0 {
        Seq::empty()
    } else {
        body_text(bs[0]) + bodies_text(bs.drop_first())
    }
}

pub open spec fn inner_text(s: Inner) -> Seq<char> {
    match s {
        Inner::IfShadow(bs) => "\n            if (hosts[i].shadowRoot) {"@ + bodies_text(bs)
            + "\n            }"@,
    }
}

pub open spec fn inners_text(ss: Seq<Inner>) -> Seq<char>
    decreases ss.len(),
{
    if ss.len() == 0 {
        Seq::empty()
    } else {
        inner_text(ss[0]) + inners_text(ss.drop_first())
    }
}

pub open spec fn top_text(t: Top) -> Seq<char> {
    match t {
        Top::LetDirect => "\n        var direct = root.querySelector(selector);"@,
        Top::IfDirectReturn => "\n        if (direct) return direct;"@,
        Top::LetHosts => "\n        var hosts = root.querySelectorAll('*');"@,
        Top::ForHosts(ss) => "\n        for (var i = 0; i < hosts.length; i++) {"@ + inners_text(ss)
            + "\n        }"@,
        Top::ReturnNull => "\n        return null;"@,
    }
}

pub open spec fn tops_text(ts: Seq<Top>) -> Seq<char>
    decreases ts.len(),
{
    if ts.len() == 0 {
        Seq::empty()
    } else {
        top_text(ts[0]) + tops_text(ts.drop_first())
    }
}

/// The JavaScript text of a helper whose body is `p`.
pub open spec fn program_text(p: Seq<Top>) -> Seq<char> {
    "function __browsectl_deepQuerySelector(root, selector) {"@ + tops_text(p) + "\n    }"@
}

/// The body of the deep selector helper.
pub open spec fn dq_program() -> Seq<Top> {
    seq![
        Top::LetDirect,
        Top::IfDirectReturn,
        Top::LetHosts,
        Top::ForHosts(seq![Inner::IfShadow(seq![Body::LetFound, Body::IfFoundReturn])]),
        Top::ReturnNull,
    ]
}

/// The helper's local variables.
pub struct Env {
    pub direct: Option<El>,
    pub hosts: Seq<El>,
    pub found: Option<El>,
}

/// Where running statements leaves off: a returned value (`None` for
/// `null`), or the next statement with these variables.
pub enum Flow {
    Returned(Option<El>),
    Next(Env),
}

/// The value the helper with body `p` returns on a root whose top-level
/// nodes are `root`, entering at most `fuel` levels of shadow roots
/// (`null` beyond them, and when the body ends without `return`).
pub open spec fn run(p: Seq<Top>, fuel: nat, root: Seq<El>) -> Option<El>
    decreases fuel, 4nat, 0nat,
{
    if fuel == 0 {
        None
    } else {
        match exec_top(p, fuel, root, 0, Env { direct: None, hosts: Seq::empty(), found: None }) {
            Flow::Returned(v) => v,
            Flow::Next(_) => None,
        }
    }
}

pub open spec fn exec_top(p: Seq<Top>, fuel: nat, root: Seq<El>, k: nat, env: Env) -> Flow
    decreases fuel, 3nat, p.len() - k,
{
    if k >= p.len() {
        Flow::Next(env)
    } else {
        match p[k as int] {
            Top::LetDirect => exec_top(
                p,
                fuel,
                root,
                k + 1,
                Env { direct: first_hit(tree(root), 0), ..env },
            ),
            Top::IfDirectReturn => if env.direct is Some {
                Flow::Returned(env.direct)
            } else {
                exec_top(p, fuel, root, k + 1, env)
            },
            Top::LetHosts => exec_top(p, fuel, root, k + 1, Env { hosts: tree(root), ..env }),
            Top::ForHosts(ss) => match exec_hosts(p, fuel, ss, env.hosts, 0, env) {
                Flow::Returned(v) => Flow::Returned(v),
                Flow::Next(e) => exec_top(p, fuel, root, k + 1, e),
            },
            Top::ReturnNull => Flow::Returned(None),
        }
    }
}

pub open spec fn exec_hosts(p: Seq<Top>, fuel: nat, ss: Seq<Inner>, hosts: Seq<El>, j: nat, env: Env) -> Flow
    decreases fuel, 2nat, hosts.len() - j,
{
    if j >= hosts.len() {
        Flow::Next(env)
    } else {
        match exec_inner(p, fuel, ss, hosts[j as int], 0, env) {
            Flow::Returned(v) => Flow::Returned(v),
            Flow::Next(e) => exec_hosts(p, fuel, ss, hosts, j + 1, e),
        }
    }
}

pub open spec fn exec_inner(p: Seq<Top>, fuel: nat, ss: Seq<Inner>, host: El, m: nat, env: Env) -> Flow
    decreases fuel, 1nat, ss.len() - m,
{
    if m >= ss.len() {
        Flow::Next(env)
    } else {
        match ss[m as int] {
            Inner::IfShadow(bs) => match host.shadow {
                Some(sr) => match exec_body(p, fuel, bs, sr, 0, env) {
                    Flow::Returned(v) => Flow::Returned(v),
                    Flow::Next(e) => exec_inner(p, fuel, ss, host, m + 1, e),
                },
                None => exec_inner(p, fuel, ss, host, m + 1, env),
            },
        }
    }
}

pub open spec fn exec_body(p: Seq<Top>, fuel: nat, bs: Seq<Body>, sr: Seq<El>, n: nat, env: Env) -> Flow
    decreases fuel, 0nat, bs.len() - n,
{
    if n >= bs.len() {
        Flow::Next(env)
    } else {
        let deep = if fuel == 0 {
            None
        } else {
            run(p, (fuel - 1) as nat, sr)
        };
        match bs[n as int] {
            Body::LetFound => exec_body(p, fuel, bs, sr, n + 1, Env { found: deep, ..env }),
            Body::IfFoundReturn => if env.found is Some {
                Flow::Returned(env.found)
            } else {
                exec_body(p, fuel, bs, sr, n + 1, env)
            },
            Body::ReturnDeep => Flow::Returned(deep),
        }
    }
}

/// Whether a matching element can be reached from a root whose top-level
/// nodes are `root`, through at most `fuel` levels of shadow roots: one
/// of its elements matches, or the shadow root of one of its elements
/// holds a reachable match.
pub open spec fn reachable(root: Seq<El>, fuel: nat) -> bool
    decreases fuel,
{
    fuel > 0 && ((exists|i: int| 0 <= i < tree(root).len() && (#[trigger] tree(root)[i]).hit) || (
    exists|i: int|
        0 <= i < tree(root).len() && match (#[trigger] tree(root)[i]).shadow {
            Some(sr) => reachable(sr, (fuel - 1) as nat),
            None => false,
        }))
}

proof fn lemma_first_hit(es: Seq<El>, k: int)
    requires
        0 <= k,
    ensures
        first_hit(es, k) matches Some(e) ==> e.hit,
        first_hit(es, k) is None <==> forall|i: int| k <= i < es.len() ==> !(#[trigger] es[i]).hit,
    decreases es.len() - k,
{
    if k < es.len() {
        lemma_first_hit(es, k + 1);
    }
}

proof fn lemma_hosts(fuel: nat, hosts: Seq<El>, j: nat, env: Env)
    requires
        fuel > 0,
        forall|sr: Seq<El>|
            #![trigger run(dq_program(), (fuel - 1) as nat, sr)]
            (run(dq_program(), (fuel - 1) as nat, sr) is None <==> !reachable(sr, (fuel - 1) as nat))
                && (run(dq_program(), (fuel - 1) as nat, sr) matches Some(e) ==> e.hit),
    ensures
        ({
            let f = exec_hosts(
                dq_program(),
                fuel,
                seq![Inner::IfShadow(seq![Body::LetFound, Body::IfFoundReturn])],
                hosts,
                j,
                env,
            );
            &&& f matches Flow::Returned(v) ==> v matches Some(e) && e.hit
            &&& (f is Next <==> forall|i: int|
                j <= i < hosts.len() ==> !match (#[trigger] hosts[i]).shadow {
                    Some(sr) => reachable(sr, (fuel - 1) as nat),
                    None => false,
                })
        }),
    decreases hosts.len() - j,
{
    let p = dq_program();
    let bs = seq![Body::LetFound, Body::IfFoundReturn];
    let ss = seq![Inner::IfShadow(bs)];
    if j < hosts.len() {
        let host = hosts[j as int];
        let inner = exec_inner(p, fuel, ss, host, 0, env);
        match host.shadow {
            Some(sr) => {
                let deep = run(p, (fuel - 1) as nat, sr);
                let e1 = Env { found: deep, ..env };
                assert(exec_body(p, fuel, bs, sr, 0, env) == exec_body(p, fuel, bs, sr, 1, e1));
                if deep is Some {
                    assert(exec_body(p, fuel, bs, sr, 1, e1) == Flow::Returned(deep));
                    assert(inner == Flow::Returned(deep));
                } else {
                    assert(exec_body(p, fuel, bs, sr, 2, e1) == Flow::Next(e1));
                    assert(inner == exec_inner(p, fuel, ss, host, 1, e1));
                    assert(inner == Flow::Next(e1));
                    lemma_hosts(fuel, hosts, j + 1, e1);
                }
            },
            None => {
                assert(ss[0] == Inner::IfShadow(bs));
                assert(exec_inner(p, fuel, ss, host, 1, env) == Flow::Next(env));
                assert(inner == Flow::Next(env));
                lemma_hosts(fuel, hosts, j + 1, env);
            },
        }
    }
}

/// The deep selector helper's text is the program `dq_program`, and on
/// any page that program returns `null` exactly when no element matching
/// the selector can be reached from the root, whether directly or through
/// the open shadow root of any element (not only the first host met); what
/// it returns otherwise is a matching element.
pub proof fn lemma_deep_query_finds_any_reachable_match(root: Seq<El>, fuel: nat)
    ensures
        program_text(dq_program()) == deep_query_selector_src(),
        run(dq_program(), fuel, root) is None <==> !reachable(root, fuel),
        run(dq_program(), fuel, root) matches Some(e) ==> e.hit,
    decreases fuel,
{
    lemma_helper_text();
    if fuel > 0 {
        assert forall|sr: Seq<El>|
            #![trigger run(dq_program(), (fuel - 1) as nat, sr)]
            (run(dq_program(), (fuel - 1) as nat, sr) is None <==> !reachable(
                sr,
                (fuel - 1) as nat,
            )) && (run(dq_program(), (fuel - 1) as nat, sr) matches Some(e) ==> e.hit) by {
            lemma_deep_query_finds_any_reachable_match(sr, (fuel - 1) as nat);
        }
        let p = dq_program();
        let t = tree(root);
        let env0 = Env { direct: None, hosts: Seq::empty(), found: None };
        let direct = first_hit(t, 0);
        lemma_first_hit(t, 0);
        let e1 = Env { direct: direct, ..env0 };
        assert(exec_top(p, fuel, root, 0, env0) == exec_top(p, fuel, root, 1, e1));
        if direct is Some {
            assert(exec_top(p, fuel, root, 1, e1) == Flow::Returned(direct));
            assert(reachable(root, fuel)) by {
                let i = choose|i: int| 0 <= i < t.len() && !!(#[trigger] t[i]).hit;
                assert(t[i].hit);
            }
        } else {
            let e2 = Env { hosts: t, ..e1 };
            assert(exec_top(p, fuel, root, 1, e1) == exec_top(p, fuel, root, 2, e1));
            assert(exec_top(p, fuel, root, 2, e1) == exec_top(p, fuel, root, 3, e2));
            let ss = seq![Inner::IfShadow(seq![Body::LetFound, Body::IfFoundReturn])];
            assert(p[3] == Top::ForHosts(ss));
            lemma_hosts(fuel, t, 0, e2);
            match exec_hosts(p, fuel, ss, t, 0, e2) {
                Flow::Returned(v) => {
                    assert(exec_top(p, fuel, root, 3, e2) == Flow::Returned(v));
                    assert(exists|i: int|
                        0 <= i < t.len() && match (#[trigger] t[i]).shadow {
                            Some(sr) => reachable(sr, (fuel - 1) as nat),
                            None => false,
                        });
                },
                Flow::Next(e3) => {
                    assert(exec_top(p, fuel, root, 3, e2) == exec_top(p, fuel, root, 4, e3));
                    assert(exec_top(p, fuel, root, 4, e3) == Flow::Returned(None));
                    assert(!reachable(root, fuel));
                },
            }
        }
    }
}

proof fn lemma_helper_text()
    ensures
        program_text(dq_program()) == deep_query_selector_src(),
{
    reveal_with_fuel(tops_text, 6);
    reveal_with_fuel(inners_text, 2);
    reveal_with_fuel(bodies_text, 3);
    reveal_strlit("function __browsectl_deepQuerySelector(root, selector) {");
    reveal_strlit("\n        var direct = root.querySelector(selector);");
    reveal_strlit("\n        if (direct) return direct;");
    reveal_strlit("\n        var hosts = root.querySelectorAll('*');");
    reveal_strlit("\n        for (var i = 0; i < hosts.length; i++) {");
    reveal_strlit("\n            if (hosts[i].shadowRoot) {");
    reveal_strlit("\n                var found = __browsectl_deepQuerySelector(hosts[i].shadowRoot, selector);");
    reveal_strlit("\n                if (found) return found;");
    reveal_strlit("\n            }");
    reveal_strlit("\n        }");
    reveal_strlit("\n        return null;");
    reveal_strlit("\n    }");
    reveal_strlit(
        "function __browsectl_deepQuerySelector(root, selector) {
        var direct = root.querySelector(selector);
        if (direct) return direct;
        var hosts = root.querySelectorAll('*');
        for (var i = 0; i < hosts.length; i++) {
            if (hosts[i].shadowRoot) {
                var found = __browsectl_deepQuerySelector(hosts[i].shadowRoot, selector);
                if (found) return found;
            }
        }
        return null;
    }",
    );
    assert(program_text(dq_program()) =~= deep_query_selector_src());
}

} // verus!
