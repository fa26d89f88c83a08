//! The merge engine's algebraic laws, stated and proved against the
//! mathematical merge of [`crate::merge`]: idempotence under duplicate input,
//! no information loss on disjoint inputs, deduplication of shared dimension
//! names, the attribute-union/override policy, and the payload-override
//! policy for shared variable names.

use crate::merge::bump_unlimited;
use crate::merge::copy_data_spec;
use crate::merge::copy_data_upto;
use crate::merge::copy_var_data_spec;
use crate::merge::def_dim_of;
use crate::merge::dims_conflict;
use crate::merge::empty_container;
use crate::merge::lemma_copy_data_upto_preserves;
use crate::merge::lemma_merge_vars_upto_preserves;
use crate::merge::merge_dims_upto;
use crate::merge::merge_schema_spec;
use crate::merge::merge_var_def;
use crate::merge::merge_vars_upto;
use crate::merge::merged_dims;
use crate::merge::new_var_of;
use crate::merge::put_attrs;
use crate::merge::put_attrs_upto;
use crate::merge::put_dim;
use crate::merge::refs_resolvable;
use crate::merge::resolved_refs;
use crate::merge::spec_merge;
use crate::merge::spec_merge_ok;
use crate::model::at_most_one_unlimited;
use crate::model::attr_names;
use crate::model::count_name;
use crate::model::dim_names;
use crate::model::find_name;
use crate::model::has_name;
use crate::model::has_unlimited;
use crate::model::lemma_attr_names_push;
use crate::model::lemma_attr_names_update;
use crate::model::lemma_count_name_from_unique;
use crate::model::lemma_dim_names_push;
use crate::model::lemma_dim_names_update;
use crate::model::lemma_find_name;
use crate::model::lemma_find_name_push;
use crate::model::lemma_find_name_unique;
use crate::model::lemma_find_name_update;
use crate::model::lemma_var_names_push;
use crate::model::lemma_var_names_update;
use crate::model::unique_names;
use crate::model::wf_container;
use crate::model::wf_var;
use crate::model::var_names;
use crate::model::AttrV;
use crate::model::ContainerV;
use crate::model::DimV;
use crate::model::Mode;
use crate::model::VarV;
use vstd::prelude::*;

verus! {

broadcast use {
    lemma_attr_names_push,
    lemma_attr_names_update,
    lemma_dim_names_push,
    lemma_dim_names_update,
    lemma_find_name_push,
    lemma_find_name_update,
    lemma_var_names_push,
    lemma_var_names_update,
};

// ---------------------------------------------------------------------------
// Attribute maps under overwriting
// ---------------------------------------------------------------------------

/// How one attribute write changes lookups: the written name now maps to the
/// written value, every other name is untouched.
pub proof fn lemma_put_attr_find(s: Seq<AttrV>, a: AttrV, x: Seq<char>)
    ensures
        ({
            let t = crate::model::put_attr(s, a);
            &&& (x == a.name ==> 0 <= find_name(attr_names(t), x) < t.len() && t[find_name(
                attr_names(t),
                x,
            )] == a)
            &&& (x != a.name ==> find_name(attr_names(t), x) == find_name(attr_names(s), x))
            &&& (x != a.name && find_name(attr_names(s), x) != -1 ==> t[find_name(
                attr_names(s),
                x,
            )] == s[find_name(attr_names(s), x)])
            &&& (unique_names(attr_names(s)) ==> unique_names(attr_names(t)))
        }),
{
    let i = find_name(attr_names(s), a.name);
    let t = crate::model::put_attr(s, a);
    lemma_find_name(attr_names(s), a.name);
    lemma_find_name(attr_names(s), x);
    if i == -1 {
        assert(t == s.push(a));
        if unique_names(attr_names(s)) {
            let names2 = attr_names(s).push(a.name);
            assert forall|p: int, q: int| 0 <= p < q < names2.len() implies names2[p]
                != names2[q] by {
                if q == names2.len() - 1 {
                    assert(attr_names(s)[p] != a.name);
                }
            };
            assert(unique_names(attr_names(t)));
        }
    } else {
        assert(t == s.update(i, a));
        assert(attr_names(s)[i] == a.name);
        assert(attr_names(t) == attr_names(s).update(i, a.name));
        assert(attr_names(t) =~= attr_names(s));
        if x == a.name {
            assert(find_name(attr_names(t), x) == i);
        } else {
            let js = find_name(attr_names(s), x);
            if js != -1 {
                assert(attr_names(s)[js] == x);
                assert(js != i);
                assert(t[js] == s[js]);
            }
        }
    }
}

/// Looking a name up after a whole sequence of attribute writes: the last
/// written value of that name wins; names never written keep what the base
/// held. `t` must itself name each attribute once.
pub proof fn lemma_put_attrs_upto_find(s: Seq<AttrV>, t: Seq<AttrV>, n: int, x: Seq<char>)
    requires
        0 <= n <= t.len(),
        unique_names(attr_names(t)),
    ensures
        ({
            let r = put_attrs_upto(s, t, n);
            let jt = find_name(attr_names(t), x);
            &&& (0 <= jt < n ==> 0 <= find_name(attr_names(r), x) < r.len() && r[find_name(
                attr_names(r),
                x,
            )] == t[jt])
            &&& (!(0 <= jt < n) ==> find_name(attr_names(r), x) == find_name(attr_names(s), x))
            &&& (!(0 <= jt < n) && find_name(attr_names(s), x) != -1 ==> r[find_name(
                attr_names(s),
                x,
            )] == s[find_name(attr_names(s), x)])
        }),
    decreases n,
{
    lemma_find_name(attr_names(t), x);
    if n > 0 {
        lemma_put_attrs_upto_find(s, t, n - 1, x);
        let r0 = put_attrs_upto(s, t, n - 1);
        let r = put_attrs_upto(s, t, n);
        lemma_find_name(attr_names(r0), t[n - 1].name);
        assert(r.len() >= r0.len());
        lemma_put_attr_find(r0, t[n - 1], x);
        let jt = find_name(attr_names(t), x);
        if x == t[n - 1].name {
            lemma_find_name_unique(attr_names(t), n - 1);
            assert(attr_names(t)[n - 1] == t[n - 1].name);
            assert(jt == n - 1);
            assert(0 <= find_name(attr_names(r), x) < r.len());
            assert(r[find_name(attr_names(r), x)] == t[n - 1]);
        } else {
            assert(attr_names(t)[n - 1] == t[n - 1].name);
            assert(jt != n - 1);
            assert(find_name(attr_names(r), x) == find_name(attr_names(r0), x));
            if 0 <= jt < n {
                assert(0 <= jt < n - 1);
                assert(0 <= find_name(attr_names(r0), x) < r0.len());
                assert(r.len() >= r0.len());
                assert(r[find_name(attr_names(r0), x)] == r0[find_name(attr_names(r0), x)]);
                assert(0 <= find_name(attr_names(r), x) < r.len());
                assert(r[find_name(attr_names(r), x)] == t[jt]);
            } else {
                assert(find_name(attr_names(r0), x) == find_name(attr_names(s), x));
                if find_name(attr_names(s), x) != -1 {
                    lemma_find_name(attr_names(s), x);
                    assert(r[find_name(attr_names(s), x)] == r0[find_name(attr_names(s), x)]);
                }
            }
        }
    }
}

/// Writing a duplicate-free attribute sequence into an empty map yields that
/// sequence itself.
pub proof fn lemma_put_attrs_upto_empty(t: Seq<AttrV>, n: int)
    requires
        0 <= n <= t.len(),
        unique_names(attr_names(t)),
    ensures
        put_attrs_upto(Seq::<AttrV>::empty(), t, n) == t.take(n),
    decreases n,
{
    if n == 0 {
        assert(put_attrs_upto(Seq::<AttrV>::empty(), t, 0) =~= t.take(0));
    } else {
        lemma_put_attrs_upto_empty(t, n - 1);
        let r0 = t.take(n - 1);
        let i = find_name(attr_names(r0), t[n - 1].name);
        lemma_find_name(attr_names(r0), t[n - 1].name);
        if i != -1 {
            assert(r0[i] == t[i]);
            assert(attr_names(r0)[i] == r0[i].name);
            assert(attr_names(t)[i] == attr_names(t)[n - 1]);
            assert(false);
        }
        assert(crate::model::put_attr(r0, t[n - 1]) == r0.push(t[n - 1]));
        assert(r0.push(t[n - 1]) =~= t.take(n));
    }
}

/// Rewriting a duplicate-free attribute map with its own entries changes
/// nothing.
pub proof fn lemma_put_attrs_upto_self(t: Seq<AttrV>, n: int)
    requires
        0 <= n <= t.len(),
        unique_names(attr_names(t)),
    ensures
        put_attrs_upto(t, t, n) == t,
    decreases n,
{
    if n > 0 {
        lemma_put_attrs_upto_self(t, n - 1);
        let i = find_name(attr_names(t), t[n - 1].name);
        lemma_find_name_unique(attr_names(t), n - 1);
        assert(i == n - 1);
        assert(crate::model::put_attr(t, t[n - 1]) == t.update(n - 1, t[n - 1]));
        assert(t.update(n - 1, t[n - 1]) =~= t);
    }
}

// ---------------------------------------------------------------------------
// Dimension copying
// ---------------------------------------------------------------------------

/// Copying dimensions whose names are all fresh appends them, in order, with
/// the unlimited extent zeroed.
pub proof fn lemma_merge_dims_upto_fresh(dims: Seq<DimV>, src: Seq<DimV>, n: int)
    requires
        0 <= n <= src.len(),
        unique_names(dim_names(src)),
        forall|j: int| 0 <= j < n ==> !has_name(dim_names(dims), (#[trigger] src[j]).name),
    ensures
        merge_dims_upto(dims, src, n) == dims + Seq::new(
            n as nat,
            |j: int| def_dim_of(src[j]),
        ),
    decreases n,
{
    if n == 0 {
        assert(merge_dims_upto(dims, src, 0) =~= dims + Seq::new(0, |j: int| def_dim_of(src[j])));
    } else {
        lemma_merge_dims_upto_fresh(dims, src, n - 1);
        let prev = dims + Seq::new((n - 1) as nat, |j: int| def_dim_of(src[j]));
        let nm = src[n - 1].name;
        let i = find_name(dim_names(prev), nm);
        lemma_find_name(dim_names(prev), nm);
        lemma_find_name(dim_names(dims), nm);
        if i != -1 {
            assert(dim_names(prev)[i] == prev[i].name);
            if i < dims.len() {
                assert(prev[i] == dims[i]);
                assert(dim_names(dims)[i] == dims[i].name);
                assert(has_name(dim_names(dims), nm));
                assert(false);
            } else {
                assert(prev[i] == def_dim_of(src[i - dims.len()]));
                assert(dim_names(src)[i - dims.len()] == dim_names(src)[n - 1]);
                assert(false);
            }
        }
        assert(put_dim(prev, src[n - 1]) == prev.push(def_dim_of(src[n - 1])));
        assert(prev.push(def_dim_of(src[n - 1])) =~= dims + Seq::new(
            n as nat,
            |j: int| def_dim_of(src[j]),
        ));
    }
}

/// Copying dimensions whose names the destination all knows changes nothing.
pub proof fn lemma_merge_dims_upto_existing(dims: Seq<DimV>, src: Seq<DimV>, n: int)
    requires
        0 <= n <= src.len(),
        forall|j: int| 0 <= j < n ==> has_name(dim_names(dims), (#[trigger] src[j]).name),
    ensures
        merge_dims_upto(dims, src, n) == dims,
    decreases n,
{
    if n > 0 {
        lemma_merge_dims_upto_existing(dims, src, n - 1);
    }
}

/// Copying dimensions keeps the destination prefix, keeps names unique, and
/// makes a name known exactly when the destination or a copied source
/// dimension carries it.
pub proof fn lemma_merge_dims_upto_props(dims: Seq<DimV>, src: Seq<DimV>, n: int)
    requires
        0 <= n <= src.len(),
    ensures
        ({
            let r = merge_dims_upto(dims, src, n);
            &&& r.len() >= dims.len()
            &&& (forall|p: int| 0 <= p < dims.len() ==> r[p] == dims[p])
            &&& (forall|x: Seq<char>|
                #[trigger] has_name(dim_names(r), x) <==> (has_name(dim_names(dims), x) || exists|
                    j: int,
                |
                    0 <= j < n && (#[trigger] src[j]).name == x))
            &&& (unique_names(dim_names(dims)) ==> unique_names(dim_names(r)))
        }),
    decreases n,
{
    if n > 0 {
        lemma_merge_dims_upto_props(dims, src, n - 1);
        let prev = merge_dims_upto(dims, src, n - 1);
        let r = merge_dims_upto(dims, src, n);
        let nm = src[n - 1].name;
        lemma_find_name(dim_names(prev), nm);
        if !has_name(dim_names(prev), nm) {
            assert(r == prev.push(def_dim_of(src[n - 1])));
            if unique_names(dim_names(dims)) {
                let names2 = dim_names(prev).push(nm);
                assert forall|p: int, q: int| 0 <= p < q < names2.len() implies names2[p]
                    != names2[q] by {
                    if q == names2.len() - 1 {
                        assert(dim_names(prev)[p] != nm);
                    }
                };
            }
            assert forall|x: Seq<char>| #[trigger] has_name(dim_names(r), x) implies (has_name(
                dim_names(dims),
                x,
            ) || exists|j: int| 0 <= j < n && (#[trigger] src[j]).name == x) by {
                lemma_find_name(dim_names(r), x);
                if x == nm {
                    assert(src[n - 1].name == x);
                } else {
                    assert(has_name(dim_names(prev), x));
                }
            };
            assert forall|x: Seq<char>|
                (has_name(dim_names(dims), x) || exists|j: int|
                    0 <= j < n && (#[trigger] src[j]).name == x) implies #[trigger] has_name(
                dim_names(r),
                x,
            ) by {
                if x == nm {
                    assert(dim_names(r)[r.len() - 1] == nm);
                    lemma_find_name(dim_names(r), x);
                } else if has_name(dim_names(prev), x) {
                } else {
                    let j = choose|j: int| 0 <= j < n && (#[trigger] src[j]).name == x;
                    assert(0 <= j < n - 1 || j == n - 1);
                }
            };
        } else {
            assert(r == prev);
            assert forall|x: Seq<char>|
                (has_name(dim_names(dims), x) || exists|j: int|
                    0 <= j < n && (#[trigger] src[j]).name == x) implies #[trigger] has_name(
                dim_names(r),
                x,
            ) by {
                if !has_name(dim_names(dims), x) {
                    let j = choose|j: int| 0 <= j < n && (#[trigger] src[j]).name == x;
                    if j == n - 1 {
                        assert(has_name(dim_names(prev), nm));
                    }
                }
            };
        }
    }
}

// ---------------------------------------------------------------------------
// Variable definition copying
// ---------------------------------------------------------------------------

/// How copying one variable definition changes lookups: only the variable
/// carrying the source's name is touched.
pub proof fn lemma_merge_var_def_find(c: ContainerV, src: ContainerV, i: int, x: Seq<char>)
    requires
        0 <= i < src.vars.len(),
    ensures
        ({
            let r = merge_var_def(c, src, i);
            let y = src.vars[i].name;
            let jc = find_name(var_names(c.vars), y);
            &&& r.vars.len() >= c.vars.len()
            &&& (forall|p: int|
                0 <= p < c.vars.len() ==> (#[trigger] r.vars[p]).name == c.vars[p].name)
            &&& (x != y ==> find_name(var_names(r.vars), x) == find_name(var_names(c.vars), x))
            &&& (x != y && find_name(var_names(c.vars), x) != -1 ==> r.vars[find_name(
                var_names(c.vars),
                x,
            )] == c.vars[find_name(var_names(c.vars), x)])
            &&& (x == y && jc != -1 ==> find_name(var_names(r.vars), x) == jc && r.vars[jc]
                == (VarV { attrs: put_attrs(c.vars[jc].attrs, src.vars[i].attrs), ..c.vars[jc] }))
            &&& (x == y && jc == -1 && refs_resolvable(src.dims, src.vars[i].dim_refs, c.dims)
                ==> find_name(var_names(r.vars), x) == c.vars.len() && r.vars.len() == c.vars.len()
                + 1 && r.vars[c.vars.len() as int] == new_var_of(src.vars[i], src.dims, c.dims))
            &&& (x == y && jc == -1 && !refs_resolvable(src.dims, src.vars[i].dim_refs, c.dims)
                ==> r == c)
        }),
{
    let r = merge_var_def(c, src, i);
    let y = src.vars[i].name;
    let jc = find_name(var_names(c.vars), y);
    lemma_find_name(var_names(c.vars), y);
    lemma_find_name(var_names(c.vars), x);
    if jc != -1 {
        let v2 = VarV { attrs: put_attrs(c.vars[jc].attrs, src.vars[i].attrs), ..c.vars[jc] };
        assert(r.vars == c.vars.update(jc, v2));
        assert(var_names(c.vars)[jc] == c.vars[jc].name);
        assert(v2.name == c.vars[jc].name);
        assert(var_names(r.vars) == var_names(c.vars).update(jc, v2.name));
        assert(var_names(r.vars) =~= var_names(c.vars));
        if x != y {
            let jx = find_name(var_names(c.vars), x);
            if jx != -1 {
                assert(var_names(c.vars)[jx] == x);
                assert(jx != jc);
                assert(r.vars[jx] == c.vars[jx]);
            }
        }
    } else if refs_resolvable(src.dims, src.vars[i].dim_refs, c.dims) {
        let nv = new_var_of(src.vars[i], src.dims, c.dims);
        assert(r.vars == c.vars.push(nv));
        assert(nv.name == y);
        assert(var_names(r.vars) == var_names(c.vars).push(y));
        if x == y {
            assert(find_name(var_names(r.vars), x) == c.vars.len() as int);
        } else {
            let jx = find_name(var_names(c.vars), x);
            if jx != -1 {
                assert(r.vars[jx] == c.vars[jx]);
            }
        }
    } else {
        assert(r == c);
    }
}

/// Looking a variable up after copying a whole source's definitions: an
/// existing name keeps its position and gains only the source's attribute
/// values; a fresh source name appears once, as the copied definition; any
/// other name stays absent. The source must name each variable once.
pub proof fn lemma_merge_vars_upto_find(c: ContainerV, src: ContainerV, n: int, x: Seq<char>)
    requires
        0 <= n <= src.vars.len(),
        unique_names(var_names(src.vars)),
    ensures
        ({
            let r = merge_vars_upto(c, src, n);
            let jc = find_name(var_names(c.vars), x);
            let js = find_name(var_names(src.vars), x);
            &&& r.vars.len() >= c.vars.len()
            &&& (forall|p: int|
                0 <= p < c.vars.len() ==> (#[trigger] r.vars[p]).name == c.vars[p].name)
            &&& (jc != -1 ==> find_name(var_names(r.vars), x) == jc && r.vars[jc] == (if 0 <= js
                < n {
                VarV { attrs: put_attrs(c.vars[jc].attrs, src.vars[js].attrs), ..c.vars[jc] }
            } else {
                c.vars[jc]
            }))
            &&& (jc == -1 && 0 <= js < n && refs_resolvable(
                src.dims,
                src.vars[js].dim_refs,
                c.dims,
            ) ==> c.vars.len() <= find_name(var_names(r.vars), x) < r.vars.len() && r.vars[find_name(
                var_names(r.vars),
                x,
            )] == new_var_of(src.vars[js], src.dims, c.dims))
            &&& (jc == -1 && !(0 <= js < n && refs_resolvable(
                src.dims,
                src.vars[js].dim_refs,
                c.dims,
            )) ==> find_name(var_names(r.vars), x) == -1)
        }),
    decreases n,
{
    lemma_find_name(var_names(src.vars), x);
    lemma_find_name(var_names(c.vars), x);
    if n > 0 {
        lemma_merge_vars_upto_find(c, src, n - 1, x);
        let prev = merge_vars_upto(c, src, n - 1);
        let r = merge_vars_upto(c, src, n);
        lemma_merge_vars_upto_preserves(c, src, n - 1);
        assert(prev.dims == c.dims);
        lemma_merge_var_def_find(prev, src, n - 1, x);
        let y = src.vars[n - 1].name;
        let jc = find_name(var_names(c.vars), x);
        let js = find_name(var_names(src.vars), x);
        assert(var_names(src.vars)[n - 1] == y);
        if x == y {
            lemma_find_name_unique(var_names(src.vars), n - 1);
            assert(js == n - 1);
            if jc != -1 {
                assert(find_name(var_names(prev.vars), x) == jc && prev.vars[jc] == c.vars[jc]);
                assert(r.vars[jc] == (VarV {
                    attrs: put_attrs(prev.vars[jc].attrs, src.vars[n - 1].attrs),
                    ..prev.vars[jc]
                }));
            } else {
                assert(find_name(var_names(prev.vars), x) == -1);
                if refs_resolvable(src.dims, src.vars[n - 1].dim_refs, c.dims) {
                    assert(find_name(var_names(r.vars), x) == prev.vars.len() as int);
                    assert(r.vars[prev.vars.len() as int] == new_var_of(
                        src.vars[n - 1],
                        src.dims,
                        prev.dims,
                    ));
                }
            }
        } else {
            assert(js != n - 1);
            assert(find_name(var_names(r.vars), x) == find_name(var_names(prev.vars), x));
            if jc != -1 {
                assert(0 <= jc < prev.vars.len());
                assert(r.vars[jc] == prev.vars[jc]);
            } else if 0 <= js < n && refs_resolvable(src.dims, src.vars[js].dim_refs, c.dims) {
                assert(0 <= js < n - 1);
                let jr = find_name(var_names(prev.vars), x);
                assert(c.vars.len() <= jr < prev.vars.len());
                assert(r.vars[jr] == prev.vars[jr]);
            }
        }
    }
}

/// Copying variable definitions whose names are all fresh appends the copied
/// definitions, in order.
pub proof fn lemma_merge_vars_upto_fresh(c: ContainerV, src: ContainerV, n: int)
    requires
        0 <= n <= src.vars.len(),
        unique_names(var_names(src.vars)),
        forall|j: int|
            0 <= j < n ==> !has_name(var_names(c.vars), (#[trigger] src.vars[j]).name),
        forall|j: int|
            0 <= j < n ==> refs_resolvable(src.dims, (#[trigger] src.vars[j]).dim_refs, c.dims),
    ensures
        merge_vars_upto(c, src, n).vars == c.vars + Seq::new(
            n as nat,
            |j: int| new_var_of(src.vars[j], src.dims, c.dims),
        ),
    decreases n,
{
    if n == 0 {
        assert(merge_vars_upto(c, src, 0).vars =~= c.vars + Seq::new(
            0,
            |j: int| new_var_of(src.vars[j], src.dims, c.dims),
        ));
    } else {
        lemma_merge_vars_upto_fresh(c, src, n - 1);
        let prev = merge_vars_upto(c, src, n - 1);
        lemma_merge_vars_upto_preserves(c, src, n - 1);
        let news = Seq::new((n - 1) as nat, |j: int| new_var_of(src.vars[j], src.dims, c.dims));
        let y = src.vars[n - 1].name;
        let jp = find_name(var_names(prev.vars), y);
        lemma_find_name(var_names(prev.vars), y);
        lemma_find_name(var_names(c.vars), y);
        if jp != -1 {
            assert(var_names(prev.vars)[jp] == prev.vars[jp].name);
            if jp < c.vars.len() {
                assert(prev.vars[jp] == c.vars[jp]);
                assert(var_names(c.vars)[jp] == c.vars[jp].name);
                assert(has_name(var_names(c.vars), y));
                assert(false);
            } else {
                assert(prev.vars[jp] == news[jp - c.vars.len()]);
                assert(prev.vars[jp].name == src.vars[jp - c.vars.len()].name);
                assert(var_names(src.vars)[jp - c.vars.len()] == var_names(src.vars)[n - 1]);
                assert(false);
            }
        }
        assert(merge_vars_upto(c, src, n).vars == prev.vars.push(
            new_var_of(src.vars[n - 1], src.dims, prev.dims),
        ));
        assert(merge_vars_upto(c, src, n).vars =~= c.vars + Seq::new(
            n as nat,
            |j: int| new_var_of(src.vars[j], src.dims, c.dims),
        ));
    }
}

/// Copying variable definitions that all collide with the destination and
/// whose attribute writes are no-ops changes nothing.
pub proof fn lemma_merge_vars_upto_identity(c: ContainerV, src: ContainerV, n: int)
    requires
        0 <= n <= src.vars.len(),
        forall|j: int|
            0 <= j < n ==> {
                let jj = find_name(var_names(c.vars), (#[trigger] src.vars[j]).name);
                &&& jj != -1
                &&& put_attrs(c.vars[jj].attrs, src.vars[j].attrs) == c.vars[jj].attrs
            },
    ensures
        merge_vars_upto(c, src, n) == c,
    decreases n,
{
    if n > 0 {
        lemma_merge_vars_upto_identity(c, src, n - 1);
        let y = src.vars[n - 1].name;
        let jj = find_name(var_names(c.vars), y);
        lemma_find_name(var_names(c.vars), y);
        assert(jj != -1);
        let v2 = VarV { attrs: put_attrs(c.vars[jj].attrs, src.vars[n - 1].attrs), ..c.vars[jj] };
        assert(v2 =~= c.vars[jj]);
        assert(merge_var_def(c, src, n - 1).vars == c.vars.update(jj, v2));
        assert(c.vars.update(jj, v2) =~= c.vars);
        assert(merge_var_def(c, src, n - 1) =~= c);
    }
}

// ---------------------------------------------------------------------------
// Payload copying
// ---------------------------------------------------------------------------

/// A name at a valid index is known.
pub proof fn lemma_has_name_at(names: Seq<Seq<char>>, r: int)
    requires
        0 <= r < names.len(),
    ensures
        has_name(names, names[r]),
{
    lemma_find_name(names, names[r]);
}

/// How copying one variable's payload changes the container: only the
/// same-named variable's payload, and the extents of unlimited dimensions it
/// spans.
pub proof fn lemma_copy_var_data_find(c: ContainerV, src: ContainerV, i: int)
    requires
        0 <= i < src.vars.len(),
    ensures
        ({
            let r = copy_var_data_spec(c, src, i);
            let y = src.vars[i].name;
            let j = find_name(var_names(c.vars), y);
            &&& r.vars.len() == c.vars.len()
            &&& r.dims.len() == c.dims.len()
            &&& (forall|p: int|
                0 <= p < c.vars.len() ==> (#[trigger] r.vars[p]) == (VarV {
                    data: r.vars[p].data,
                    ..c.vars[p]
                }))
            &&& var_names(r.vars) == var_names(c.vars)
            &&& (forall|p: int| 0 <= p < c.vars.len() && p != j ==> (#[trigger] r.vars[p]).data
                == c.vars[p].data)
            &&& (j != -1 ==> r.vars[j].data == src.vars[i].data)
            &&& (j == -1 ==> r.dims == c.dims)
            &&& (j != -1 ==> forall|k: int|
                0 <= k < c.dims.len() ==> (#[trigger] r.dims[k]) == (if c.dims[k].unlimited
                    && c.vars[j].dim_refs.contains(k) && has_name(
                    dim_names(src.dims),
                    c.dims[k].name,
                ) {
                    DimV {
                        len: src.dims[find_name(dim_names(src.dims), c.dims[k].name)].len,
                        ..c.dims[k]
                    }
                } else {
                    c.dims[k]
                }))
        }),
{
    let r = copy_var_data_spec(c, src, i);
    let y = src.vars[i].name;
    let j = find_name(var_names(c.vars), y);
    lemma_find_name(var_names(c.vars), y);
    if j != -1 {
        let refs = c.vars[j].dim_refs;
        assert(refs.take(refs.len() as int) =~= refs);
        let v2 = VarV { data: src.vars[i].data, ..c.vars[j] };
        assert(r.vars == c.vars.update(j, v2));
        assert(var_names(r.vars) == var_names(c.vars).update(j, v2.name));
        assert(var_names(c.vars)[j] == c.vars[j].name);
        assert(var_names(r.vars) =~= var_names(c.vars));
        assert(r.dims == bump_unlimited(c.dims, refs, src.dims, refs.len() as int));
        assert forall|k: int| 0 <= k < c.dims.len() implies (#[trigger] r.dims[k]) == (if c.dims[
            k
        ].unlimited && c.vars[j].dim_refs.contains(k) && has_name(
            dim_names(src.dims),
            c.dims[k].name,
        ) {
            DimV { len: src.dims[find_name(dim_names(src.dims), c.dims[k].name)].len, ..c.dims[k] }
        } else {
            c.dims[k]
        }) by {
            assert(refs.take(refs.len() as int) == refs);
        };
    }
}

/// Looking a payload up after copying a whole source's payloads: a variable
/// the source also names holds the source's bytes; every other variable, and
/// every definition, is untouched. The source must name each variable once.
pub proof fn lemma_copy_data_upto_find(c: ContainerV, src: ContainerV, n: int, x: Seq<char>)
    requires
        0 <= n <= src.vars.len(),
        unique_names(var_names(src.vars)),
    ensures
        ({
            let r = copy_data_upto(c, src, n);
            let jc = find_name(var_names(c.vars), x);
            let js = find_name(var_names(src.vars), x);
            &&& r.vars.len() == c.vars.len()
            &&& r.dims.len() == c.dims.len()
            &&& (forall|p: int|
                0 <= p < c.vars.len() ==> (#[trigger] r.vars[p]) == (VarV {
                    data: r.vars[p].data,
                    ..c.vars[p]
                }))
            &&& var_names(r.vars) == var_names(c.vars)
            &&& (forall|k: int|
                0 <= k < c.dims.len() ==> (#[trigger] r.dims[k]) == (DimV {
                    len: r.dims[k].len,
                    ..c.dims[k]
                }))
            &&& (jc != -1 ==> r.vars[jc].data == (if 0 <= js < n {
                src.vars[js].data
            } else {
                c.vars[jc].data
            }))
        }),
    decreases n,
{
    lemma_find_name(var_names(src.vars), x);
    lemma_find_name(var_names(c.vars), x);
    if n > 0 {
        lemma_copy_data_upto_find(c, src, n - 1, x);
        let prev = copy_data_upto(c, src, n - 1);
        let r = copy_data_upto(c, src, n);
        lemma_copy_var_data_find(prev, src, n - 1);
        let y = src.vars[n - 1].name;
        let jc = find_name(var_names(c.vars), x);
        let js = find_name(var_names(src.vars), x);
        let jy = find_name(var_names(prev.vars), y);
        assert(var_names(prev.vars) == var_names(c.vars));
        assert(var_names(src.vars)[n - 1] == y);
        assert forall|p: int| 0 <= p < c.vars.len() implies (#[trigger] r.vars[p]) == (VarV {
            data: r.vars[p].data,
            ..c.vars[p]
        }) by {
            assert(r.vars[p] == VarV { data: r.vars[p].data, ..prev.vars[p] });
            assert(prev.vars[p] == VarV { data: prev.vars[p].data, ..c.vars[p] });
        };
        assert forall|k: int| 0 <= k < c.dims.len() implies (#[trigger] r.dims[k]) == (DimV {
            len: r.dims[k].len,
            ..c.dims[k]
        }) by {
            if jy != -1 {
                assert(r.dims[k] == (if prev.dims[k].unlimited && prev.vars[
                    jy
                ].dim_refs.contains(k) && has_name(dim_names(src.dims), prev.dims[k].name) {
                    DimV {
                        len: src.dims[find_name(dim_names(src.dims), prev.dims[k].name)].len,
                        ..prev.dims[k]
                    }
                } else {
                    prev.dims[k]
                }));
            }
            assert(prev.dims[k] == DimV { len: prev.dims[k].len, ..c.dims[k] });
        };
        if jc != -1 {
            if x == y {
                lemma_find_name_unique(var_names(src.vars), n - 1);
                assert(js == n - 1);
                assert(jy == jc);
                assert(r.vars[jc].data == src.vars[n - 1].data);
            } else {
                assert(js != n - 1);
                if jy != -1 {
                    lemma_find_name(var_names(c.vars), y);
                    assert(var_names(c.vars)[jy] == y);
                    assert(jc != jy);
                }
                assert(r.vars[jc].data == prev.vars[jc].data);
            }
        }
    }
}

/// Copying payloads never changes the shape of the container: variable
/// count, definitions, names, and dimension names and flags all survive.
pub proof fn lemma_copy_data_upto_frame(c: ContainerV, src: ContainerV, n: int)
    requires
        0 <= n <= src.vars.len(),
    ensures
        ({
            let r = copy_data_upto(c, src, n);
            &&& r.vars.len() == c.vars.len()
            &&& r.dims.len() == c.dims.len()
            &&& (forall|p: int|
                0 <= p < c.vars.len() ==> (#[trigger] r.vars[p]) == (VarV {
                    data: r.vars[p].data,
                    ..c.vars[p]
                }))
            &&& var_names(r.vars) == var_names(c.vars)
            &&& (forall|k: int|
                0 <= k < c.dims.len() ==> (#[trigger] r.dims[k]) == (DimV {
                    len: r.dims[k].len,
                    ..c.dims[k]
                }))
        }),
    decreases n,
{
    if n > 0 {
        lemma_copy_data_upto_frame(c, src, n - 1);
        let prev = copy_data_upto(c, src, n - 1);
        let r = copy_data_upto(c, src, n);
        lemma_copy_var_data_find(prev, src, n - 1);
        let jy = find_name(var_names(prev.vars), src.vars[n - 1].name);
        assert forall|p: int| 0 <= p < c.vars.len() implies (#[trigger] r.vars[p]) == (VarV {
            data: r.vars[p].data,
            ..c.vars[p]
        }) by {
            assert(r.vars[p] == VarV { data: r.vars[p].data, ..prev.vars[p] });
            assert(prev.vars[p] == VarV { data: prev.vars[p].data, ..c.vars[p] });
        };
        assert forall|k: int| 0 <= k < c.dims.len() implies (#[trigger] r.dims[k]) == (DimV {
            len: r.dims[k].len,
            ..c.dims[k]
        }) by {
            if jy != -1 {
                assert(r.dims[k] == (if prev.dims[k].unlimited && prev.vars[
                    jy
                ].dim_refs.contains(k) && has_name(dim_names(src.dims), prev.dims[k].name) {
                    DimV {
                        len: src.dims[find_name(dim_names(src.dims), prev.dims[k].name)].len,
                        ..prev.dims[k]
                    }
                } else {
                    prev.dims[k]
                }));
            }
            assert(prev.dims[k] == DimV { len: prev.dims[k].len, ..c.dims[k] });
        };
    }
}

/// What copying a whole source's payloads does to one dimension: an
/// unlimited dimension spanned by some copied variable takes the extent of
/// the same-named source dimension; every other dimension is untouched.
pub proof fn lemma_copy_data_upto_dims(c: ContainerV, src: ContainerV, n: int, u: int)
    requires
        0 <= n <= src.vars.len(),
        0 <= u < c.dims.len(),
        unique_names(var_names(src.vars)),
    ensures
        ({
            let r = copy_data_upto(c, src, n);
            let touched = exists|j: int|
                0 <= j < n && {
                    let jj = find_name(var_names(c.vars), (#[trigger] src.vars[j]).name);
                    jj != -1 && c.vars[jj].dim_refs.contains(u)
                };
            r.dims[u] == (if c.dims[u].unlimited && has_name(dim_names(src.dims), c.dims[u].name)
                && touched {
                DimV {
                    len: src.dims[find_name(dim_names(src.dims), c.dims[u].name)].len,
                    ..c.dims[u]
                }
            } else {
                c.dims[u]
            })
        }),
    decreases n,
{
    if n > 0 {
        lemma_copy_data_upto_dims(c, src, n - 1, u);
        lemma_copy_data_upto_find(c, src, n - 1, src.vars[n - 1].name);
        let prev = copy_data_upto(c, src, n - 1);
        let r = copy_data_upto(c, src, n);
        lemma_copy_var_data_find(prev, src, n - 1);
        let y = src.vars[n - 1].name;
        let jy = find_name(var_names(c.vars), y);
        assert(var_names(prev.vars) == var_names(c.vars));
        let touched_prev = exists|j: int|
            0 <= j < n - 1 && {
                let jj = find_name(var_names(c.vars), (#[trigger] src.vars[j]).name);
                jj != -1 && c.vars[jj].dim_refs.contains(u)
            };
        let touched = exists|j: int|
            0 <= j < n && {
                let jj = find_name(var_names(c.vars), (#[trigger] src.vars[j]).name);
                jj != -1 && c.vars[jj].dim_refs.contains(u)
            };
        if jy != -1 {
            lemma_find_name(var_names(c.vars), y);
            assert(prev.vars[jy] == VarV { data: prev.vars[jy].data, ..c.vars[jy] });
            assert(prev.vars[jy].dim_refs == c.vars[jy].dim_refs);
            assert(prev.dims[u] == DimV { len: prev.dims[u].len, ..c.dims[u] });
            assert(prev.dims[u].unlimited == c.dims[u].unlimited);
            assert(prev.dims[u].name == c.dims[u].name);
            if c.dims[u].unlimited && c.vars[jy].dim_refs.contains(u) && has_name(
                dim_names(src.dims),
                c.dims[u].name,
            ) {
                assert(r.dims[u] == DimV {
                    len: src.dims[find_name(dim_names(src.dims), c.dims[u].name)].len,
                    ..prev.dims[u]
                });
                assert(touched) by {
                    assert(0 <= n - 1 < n && {
                        let jj = find_name(var_names(c.vars), src.vars[n - 1].name);
                        jj != -1 && c.vars[jj].dim_refs.contains(u)
                    });
                }
            } else {
                assert(r.dims[u] == prev.dims[u]);
                assert(touched ==> touched_prev || (jy != -1 && c.vars[jy].dim_refs.contains(u)))
                    by {
                    if touched {
                        let j = choose|j: int|
                            0 <= j < n && {
                                let jj = find_name(
                                    var_names(c.vars),
                                    (#[trigger] src.vars[j]).name,
                                );
                                jj != -1 && c.vars[jj].dim_refs.contains(u)
                            };
                        if j < n - 1 {
                            assert(touched_prev);
                        }
                    }
                };
                assert(touched_prev ==> touched) by {
                    if touched_prev {
                        let j = choose|j: int|
                            0 <= j < n - 1 && {
                                let jj = find_name(
                                    var_names(c.vars),
                                    (#[trigger] src.vars[j]).name,
                                );
                                jj != -1 && c.vars[jj].dim_refs.contains(u)
                            };
                        assert(0 <= j < n);
                    }
                };
            }
        } else {
            assert(r.dims[u] == prev.dims[u]);
            assert(touched <==> touched_prev) by {
                if touched {
                    let j = choose|j: int|
                        0 <= j < n && {
                            let jj = find_name(var_names(c.vars), (#[trigger] src.vars[j]).name);
                            jj != -1 && c.vars[jj].dim_refs.contains(u)
                        };
                    if j == n - 1 {
                        assert(find_name(var_names(c.vars), src.vars[n - 1].name) == jy);
                        assert(false);
                    }
                    assert(touched_prev);
                }
                if touched_prev {
                    let j = choose|j: int|
                        0 <= j < n - 1 && {
                            let jj = find_name(var_names(c.vars), (#[trigger] src.vars[j]).name);
                            jj != -1 && c.vars[jj].dim_refs.contains(u)
                        };
                    assert(0 <= j < n);
                }
            };
        }
    }
}

// ---------------------------------------------------------------------------
// Schema well-formedness through the merge
// ---------------------------------------------------------------------------

/// Copying dimensions never yields a second unlimited dimension, as long as
/// the copy is not a conflicting one.
proof fn lemma_merge_dims_upto_one_unlimited(dims: Seq<DimV>, src: Seq<DimV>, n: int)
    requires
        0 <= n <= src.len(),
        at_most_one_unlimited(dims),
        at_most_one_unlimited(src),
        !dims_conflict(dims, src),
    ensures
        ({
            let r = merge_dims_upto(dims, src, n);
            &&& at_most_one_unlimited(r)
            &&& (has_unlimited(r) ==> has_unlimited(dims) || exists|j: int|
                0 <= j < n && (#[trigger] src[j]).unlimited)
        }),
    decreases n,
{
    if n > 0 {
        lemma_merge_dims_upto_one_unlimited(dims, src, n - 1);
        let prev = merge_dims_upto(dims, src, n - 1);
        let r = merge_dims_upto(dims, src, n);
        let d = src[n - 1];
        lemma_merge_dims_upto_props(dims, src, n - 1);
        if !has_name(dim_names(prev), d.name) {
            assert(r == prev.push(def_dim_of(d)));
            if d.unlimited {
                assert(!has_name(dim_names(dims), d.name));
                if has_unlimited(dims) {
                    assert(dims_conflict(dims, src));
                    assert(false);
                }
                if has_unlimited(prev) {
                    let j = choose|j: int| 0 <= j < n - 1 && (#[trigger] src[j]).unlimited;
                    assert(!src[n - 1].unlimited);
                    assert(false);
                }
                assert forall|p: int, q: int|
                    0 <= p < q < r.len() && r[p].unlimited implies !r[q].unlimited by {
                    if q < r.len() - 1 {
                        assert(prev[p].unlimited);
                    } else if p < r.len() - 1 {
                        assert(0 <= p < prev.len() && prev[p].unlimited);
                        assert(has_unlimited(prev));
                    }
                };
                assert(r[r.len() - 1].unlimited);
            } else {
                assert forall|p: int, q: int|
                    0 <= p < q < r.len() && r[p].unlimited implies !r[q].unlimited by {
                    if q < r.len() - 1 {
                        assert(prev[p].unlimited);
                    }
                };
                if has_unlimited(r) {
                    let p = choose|p: int| 0 <= p < r.len() && (#[trigger] r[p]).unlimited;
                    assert(p < prev.len());
                    assert(prev[p].unlimited);
                    assert(has_unlimited(prev));
                }
            }
        } else {
            assert(r == prev);
        }
    }
}

/// Copying variable definitions keeps variable names pairwise distinct.
proof fn lemma_merge_vars_upto_unique(c: ContainerV, src: ContainerV, n: int)
    requires
        0 <= n <= src.vars.len(),
        unique_names(var_names(c.vars)),
    ensures
        unique_names(var_names(merge_vars_upto(c, src, n).vars)),
    decreases n,
{
    if n > 0 {
        lemma_merge_vars_upto_unique(c, src, n - 1);
        let prev = merge_vars_upto(c, src, n - 1);
        let r = merge_vars_upto(c, src, n);
        let y = src.vars[n - 1].name;
        let j = find_name(var_names(prev.vars), y);
        lemma_find_name(var_names(prev.vars), y);
        if j != -1 {
            let v2 = VarV {
                attrs: put_attrs(prev.vars[j].attrs, src.vars[n - 1].attrs),
                ..prev.vars[j]
            };
            assert(r.vars == prev.vars.update(j, v2));
            assert(var_names(prev.vars)[j] == prev.vars[j].name);
            assert(var_names(r.vars) =~= var_names(prev.vars));
        } else if refs_resolvable(src.dims, src.vars[n - 1].dim_refs, prev.dims) {
            assert(r.vars == prev.vars.push(new_var_of(src.vars[n - 1], src.dims, prev.dims)));
            let names2 = var_names(prev.vars).push(y);
            assert(var_names(r.vars) == names2);
            assert forall|p: int, q: int| 0 <= p < q < names2.len() implies names2[p]
                != names2[q] by {
                if q == names2.len() - 1 {
                    assert(var_names(prev.vars)[p] != y);
                }
            };
        }
    }
}

/// Writing well-sized attributes into a well-formed attribute map keeps it
/// well formed.
proof fn lemma_put_attrs_upto_wf(s: Seq<AttrV>, t: Seq<AttrV>, n: int)
    requires
        0 <= n <= t.len(),
        crate::model::wf_attrs(s),
        forall|j: int|
            0 <= j < t.len() ==> (#[trigger] t[j]).bytes.len() == t[j].nelems
                * crate::model::elem_size(t[j].ty),
    ensures
        ({
            let r = put_attrs_upto(s, t, n);
            &&& unique_names(attr_names(r))
            &&& forall|i: int|
                0 <= i < r.len() ==> (#[trigger] r[i]).bytes.len() == r[i].nelems
                    * crate::model::elem_size(r[i].ty)
        }),
    decreases n,
{
    if n > 0 {
        lemma_put_attrs_upto_wf(s, t, n - 1);
        let prev = put_attrs_upto(s, t, n - 1);
        let r = put_attrs_upto(s, t, n);
        let a = t[n - 1];
        let i = find_name(attr_names(prev), a.name);
        lemma_find_name(attr_names(prev), a.name);
        lemma_put_attr_find(prev, a, a.name);
        if i == -1 {
            assert(r == prev.push(a));
        } else {
            assert(r == prev.update(i, a));
        }
        assert forall|p: int| 0 <= p < r.len() implies (#[trigger] r[p]).bytes.len() == r[p].nelems
            * crate::model::elem_size(r[p].ty) by {
            if i == -1 {
                if p < prev.len() {
                    assert(r[p] == prev[p]);
                } else {
                    assert(r[p] == a);
                }
            } else {
                if p != i {
                    assert(r[p] == prev[p]);
                } else {
                    assert(r[p] == a);
                }
            }
        };
    }
}

/// Copying variable definitions keeps every variable well formed against the
/// destination's dimensions.
proof fn lemma_merge_vars_upto_wf(c: ContainerV, src: ContainerV, n: int)
    requires
        0 <= n <= src.vars.len(),
        forall|p: int| 0 <= p < c.vars.len() ==> wf_var(#[trigger] c.vars[p], c.dims),
        forall|j: int| 0 <= j < src.vars.len() ==> wf_var(#[trigger] src.vars[j], src.dims),
    ensures
        ({
            let r = merge_vars_upto(c, src, n);
            forall|p: int| 0 <= p < r.vars.len() ==> wf_var(#[trigger] r.vars[p], c.dims)
        }),
    decreases n,
{
    if n > 0 {
        lemma_merge_vars_upto_wf(c, src, n - 1);
        let prev = merge_vars_upto(c, src, n - 1);
        let r = merge_vars_upto(c, src, n);
        lemma_merge_vars_upto_preserves(c, src, n - 1);
        assert(prev.dims == c.dims);
        let sv = src.vars[n - 1];
        assert(wf_var(sv, src.dims));
        let j = find_name(var_names(prev.vars), sv.name);
        lemma_find_name(var_names(prev.vars), sv.name);
        if j != -1 {
            let v2 = VarV { attrs: put_attrs(prev.vars[j].attrs, sv.attrs), ..prev.vars[j] };
            assert(r.vars == prev.vars.update(j, v2));
            lemma_put_attrs_upto_wf(prev.vars[j].attrs, sv.attrs, sv.attrs.len() as int);
            assert(wf_var(v2, c.dims));
            assert forall|p: int| 0 <= p < r.vars.len() implies wf_var(
                #[trigger] r.vars[p],
                c.dims,
            ) by {
                if p != j {
                    assert(r.vars[p] == prev.vars[p]);
                }
            };
        } else if refs_resolvable(src.dims, sv.dim_refs, prev.dims) {
            let nv = new_var_of(sv, src.dims, prev.dims);
            assert(r.vars == prev.vars.push(nv));
            assert forall|k: int|
                0 <= k < nv.dim_refs.len() implies 0 <= (#[trigger] nv.dim_refs[k])
                < c.dims.len() by {
                let rr = sv.dim_refs[k];
                assert(0 <= rr < src.dims.len());
                assert(has_name(dim_names(c.dims), src.dims[rr].name));
                lemma_find_name(dim_names(c.dims), src.dims[rr].name);
                assert(nv.dim_refs[k] == find_name(dim_names(c.dims), src.dims[rr].name));
            };
            lemma_put_attrs_upto_wf(Seq::<AttrV>::empty(), sv.attrs, sv.attrs.len() as int);
            assert(nv.dim_refs.len() == sv.dim_refs.len());
            assert(wf_var(nv, c.dims));
            assert forall|p: int| 0 <= p < r.vars.len() implies wf_var(
                #[trigger] r.vars[p],
                c.dims,
            ) by {
                if p < prev.vars.len() {
                    assert(r.vars[p] == prev.vars[p]);
                } else {
                    assert(r.vars[p] == nv);
                }
            };
        }
    }
}

// ---------------------------------------------------------------------------
// The laws
// ---------------------------------------------------------------------------

/// One source's schema merge, with the intermediate container spelled out.
proof fn lemma_merge_schema_spec_unfold(c: ContainerV, src: ContainerV)
    ensures
        merge_schema_spec(c, src) == merge_vars_upto(
            (ContainerV {
                dims: merged_dims(c.dims, src.dims),
                gattrs: put_attrs(c.gattrs, src.gattrs),
                ..c
            }),
            src,
            src.vars.len() as int,
        ),
{
    let x1 = ContainerV { gattrs: put_attrs(c.gattrs, src.gattrs), ..c };
    let x2 = ContainerV { dims: merged_dims(x1.dims, src.dims), ..x1 };
    let y = ContainerV {
        dims: merged_dims(c.dims, src.dims),
        gattrs: put_attrs(c.gattrs, src.gattrs),
        ..c
    };
    assert(x2 =~= y);
}

/// The full merge, with every stage spelled out.
proof fn lemma_spec_merge_unfold(a: ContainerV, b: ContainerV)
    ensures
        spec_merge(a, b) == copy_data_spec(
            copy_data_spec(
                (ContainerV {
                    mode: Mode::Data,
                    ..merge_schema_spec(merge_schema_spec(empty_container(a.format), a), b)
                }),
                a,
            ),
            b,
        ),
{
}

/// For a variable name both inputs define, the merged payload is the second
/// input's payload: data copies override, the last writer wins.
pub proof fn lemma_merge_shared_var_payload(a: ContainerV, b: ContainerV, x: Seq<char>)
    requires
        wf_container(a),
        wf_container(b),
        has_name(var_names(a.vars), x),
        has_name(var_names(b.vars), x),
    ensures
        ({
            let m = spec_merge(a, b);
            let ib = find_name(var_names(b.vars), x);
            let jm = find_name(var_names(m.vars), x);
            jm != -1 && m.vars[jm].data == b.vars[ib].data
        }),
{
    let ia = find_name(var_names(a.vars), x);
    let ib = find_name(var_names(b.vars), x);
    lemma_find_name(var_names(a.vars), x);
    lemma_find_name(var_names(b.vars), x);
    assert(wf_var(a.vars[ia], a.dims));
    let c0 = empty_container(a.format);
    let n_a = a.vars.len() as int;
    let n_b = b.vars.len() as int;
    let c2a = ContainerV {
        dims: merged_dims(c0.dims, a.dims),
        gattrs: put_attrs(c0.gattrs, a.gattrs),
        ..c0
    };
    let c1 = merge_schema_spec(c0, a);
    lemma_merge_schema_spec_unfold(c0, a);
    assert(c1 == merge_vars_upto(c2a, a, n_a));
    // A's definition of x lands in the destination.
    lemma_merge_dims_upto_props(c0.dims, a.dims, a.dims.len() as int);
    assert(refs_resolvable(a.dims, a.vars[ia].dim_refs, c2a.dims)) by {
        assert forall|k: int| 0 <= k < a.vars[ia].dim_refs.len() implies 0 <= (#[trigger] a.vars[
            ia
        ].dim_refs[k]) < a.dims.len() && has_name(
            dim_names(c2a.dims),
            a.dims[a.vars[ia].dim_refs[k]].name,
        ) by {
            let rr = a.vars[ia].dim_refs[k];
            assert(dim_names(a.dims)[rr] == a.dims[rr].name);
            lemma_has_name_at(dim_names(a.dims), rr);
        };
    }
    assert(find_name(var_names(c2a.vars), x) == -1);
    lemma_merge_vars_upto_find(c2a, a, n_a, x);
    let j1 = find_name(var_names(c1.vars), x);
    assert(0 <= j1 < c1.vars.len());
    assert(c1.vars[j1] == new_var_of(a.vars[ia], a.dims, c2a.dims));
    // B's pass finds the variable and rewrites only attribute values.
    let c2b = ContainerV {
        dims: merged_dims(c1.dims, b.dims),
        gattrs: put_attrs(c1.gattrs, b.gattrs),
        ..c1
    };
    let c2 = merge_schema_spec(c1, b);
    lemma_merge_schema_spec_unfold(c1, b);
    assert(c2 == merge_vars_upto(c2b, b, n_b));
    lemma_merge_vars_upto_find(c2b, b, n_b, x);
    let j2 = find_name(var_names(c2.vars), x);
    assert(j2 == j1);
    // Payload copies: A writes its bytes, then B overwrites them.
    let c3 = ContainerV { mode: Mode::Data, ..c2 };
    lemma_spec_merge_unfold(a, b);
    let c4 = copy_data_spec(c3, a);
    let m = spec_merge(a, b);
    assert(m == copy_data_spec(c4, b));
    assert(var_names(c3.vars) == var_names(c2.vars));
    lemma_copy_data_upto_find(c3, a, n_a, x);
    assert(var_names(c4.vars) == var_names(c3.vars));
    lemma_copy_data_upto_find(c4, b, n_b, x);
    assert(find_name(var_names(c4.vars), x) == j1);
    assert(m.vars[j1].data == b.vars[ib].data);
    assert(var_names(m.vars) == var_names(c4.vars));
    assert(find_name(var_names(m.vars), x) == j1);
}

/// For a variable name both inputs define, the merged attributes are the
/// union of both inputs' attributes with the second input's value winning on
/// a shared attribute name, while chunking and compression stay the first
/// input's (first writer wins for structural settings).
pub proof fn lemma_merge_shared_var_attrs(a: ContainerV, b: ContainerV, x: Seq<char>)
    requires
        wf_container(a),
        wf_container(b),
        has_name(var_names(a.vars), x),
        has_name(var_names(b.vars), x),
    ensures
        ({
            let m = spec_merge(a, b);
            let ia = find_name(var_names(a.vars), x);
            let ib = find_name(var_names(b.vars), x);
            let jm = find_name(var_names(m.vars), x);
            &&& jm != -1
            &&& m.vars[jm].chunking == a.vars[ia].chunking
            &&& m.vars[jm].compression == a.vars[ia].compression
            &&& m.vars[jm].attrs == put_attrs(a.vars[ia].attrs, b.vars[ib].attrs)
            &&& forall|y: Seq<char>|
                {
                    let la = find_name(attr_names(a.vars[ia].attrs), y);
                    let lb = find_name(attr_names(b.vars[ib].attrs), y);
                    let lm = #[trigger] find_name(attr_names(m.vars[jm].attrs), y);
                    &&& (lb != -1 ==> lm != -1 && m.vars[jm].attrs[lm] == b.vars[ib].attrs[lb])
                    &&& (lb == -1 && la != -1 ==> lm != -1 && m.vars[jm].attrs[lm] == a.vars[
                        ia
                    ].attrs[la])
                    &&& (lb == -1 && la == -1 ==> lm == -1)
                }
        }),
{
    let ia = find_name(var_names(a.vars), x);
    let ib = find_name(var_names(b.vars), x);
    lemma_find_name(var_names(a.vars), x);
    lemma_find_name(var_names(b.vars), x);
    assert(wf_var(a.vars[ia], a.dims));
    assert(wf_var(b.vars[ib], b.dims));
    let c0 = empty_container(a.format);
    let n_a = a.vars.len() as int;
    let n_b = b.vars.len() as int;
    let c2a = ContainerV {
        dims: merged_dims(c0.dims, a.dims),
        gattrs: put_attrs(c0.gattrs, a.gattrs),
        ..c0
    };
    let c1 = merge_schema_spec(c0, a);
    lemma_merge_schema_spec_unfold(c0, a);
    assert(c1 == merge_vars_upto(c2a, a, n_a));
    lemma_merge_dims_upto_props(c0.dims, a.dims, a.dims.len() as int);
    assert(refs_resolvable(a.dims, a.vars[ia].dim_refs, c2a.dims)) by {
        assert forall|k: int| 0 <= k < a.vars[ia].dim_refs.len() implies 0 <= (#[trigger] a.vars[
            ia
        ].dim_refs[k]) < a.dims.len() && has_name(
            dim_names(c2a.dims),
            a.dims[a.vars[ia].dim_refs[k]].name,
        ) by {
            let rr = a.vars[ia].dim_refs[k];
            assert(dim_names(a.dims)[rr] == a.dims[rr].name);
            lemma_has_name_at(dim_names(a.dims), rr);
        };
    }
    assert(find_name(var_names(c2a.vars), x) == -1);
    lemma_merge_vars_upto_find(c2a, a, n_a, x);
    let j1 = find_name(var_names(c1.vars), x);
    assert(0 <= j1 < c1.vars.len());
    let nv = new_var_of(a.vars[ia], a.dims, c2a.dims);
    assert(c1.vars[j1] == nv);
    assert(nv.attrs == put_attrs(Seq::<AttrV>::empty(), a.vars[ia].attrs));
    lemma_put_attrs_upto_empty(a.vars[ia].attrs, a.vars[ia].attrs.len() as int);
    assert(a.vars[ia].attrs.take(a.vars[ia].attrs.len() as int) =~= a.vars[ia].attrs);
    assert(nv.attrs == a.vars[ia].attrs);
    let c2b = ContainerV {
        dims: merged_dims(c1.dims, b.dims),
        gattrs: put_attrs(c1.gattrs, b.gattrs),
        ..c1
    };
    let c2 = merge_schema_spec(c1, b);
    lemma_merge_schema_spec_unfold(c1, b);
    assert(c2 == merge_vars_upto(c2b, b, n_b));
    lemma_merge_vars_upto_find(c2b, b, n_b, x);
    assert(find_name(var_names(c2.vars), x) == j1);
    assert(c2.vars[j1] == (VarV {
        attrs: put_attrs(nv.attrs, b.vars[ib].attrs),
        ..nv
    }));
    let c3 = ContainerV { mode: Mode::Data, ..c2 };
    lemma_spec_merge_unfold(a, b);
    let c4 = copy_data_spec(c3, a);
    let m = spec_merge(a, b);
    assert(m == copy_data_spec(c4, b));
    lemma_copy_data_upto_find(c3, a, n_a, x);
    lemma_copy_data_upto_find(c4, b, n_b, x);
    assert(find_name(var_names(m.vars), x) == j1);
    assert(c4.vars[j1] == (VarV { data: c4.vars[j1].data, ..c3.vars[j1] }));
    assert(m.vars[j1] == (VarV { data: m.vars[j1].data, ..c4.vars[j1] }));
    assert(m.vars[j1].attrs == put_attrs(a.vars[ia].attrs, b.vars[ib].attrs));
    assert(m.vars[j1].chunking == a.vars[ia].chunking);
    assert(m.vars[j1].compression == a.vars[ia].compression);
    assert forall|y: Seq<char>|
        {
            let la = find_name(attr_names(a.vars[ia].attrs), y);
            let lb = find_name(attr_names(b.vars[ib].attrs), y);
            let lm = #[trigger] find_name(attr_names(m.vars[j1].attrs), y);
            &&& (lb != -1 ==> lm != -1 && m.vars[j1].attrs[lm] == b.vars[ib].attrs[lb])
            &&& (lb == -1 && la != -1 ==> lm != -1 && m.vars[j1].attrs[lm] == a.vars[ia].attrs[la])
            &&& (lb == -1 && la == -1 ==> lm == -1)
        } by {
        lemma_put_attrs_upto_find(
            a.vars[ia].attrs,
            b.vars[ib].attrs,
            b.vars[ib].attrs.len() as int,
            y,
        );
        lemma_find_name(attr_names(b.vars[ib].attrs), y);
        lemma_find_name(attr_names(a.vars[ia].attrs), y);
    };
}

/// For a dimension name both inputs define with the same extent and
/// unlimited flag, the merged container holds exactly one dimension of that
/// name.
pub proof fn lemma_merge_shared_dim_dedup(a: ContainerV, b: ContainerV, x: Seq<char>)
    requires
        wf_container(a),
        wf_container(b),
        has_name(dim_names(a.dims), x),
        has_name(dim_names(b.dims), x),
        a.dims[find_name(dim_names(a.dims), x)].len == b.dims[find_name(dim_names(b.dims), x)].len,
        a.dims[find_name(dim_names(a.dims), x)].unlimited == b.dims[find_name(
            dim_names(b.dims),
            x,
        )].unlimited,
        spec_merge_ok(a, b),
    ensures
        count_name(dim_names(spec_merge(a, b).dims), x) == 1,
{
    let c0 = empty_container(a.format);
    let d1 = merged_dims(c0.dims, a.dims);
    let d2 = merged_dims(d1, b.dims);
    lemma_merge_dims_upto_props(c0.dims, a.dims, a.dims.len() as int);
    lemma_merge_dims_upto_props(d1, b.dims, b.dims.len() as int);
    assert(unique_names(dim_names(d2)));
    lemma_find_name(dim_names(a.dims), x);
    let fa = find_name(dim_names(a.dims), x);
    assert(a.dims[fa].name == x);
    assert(has_name(dim_names(d1), x));
    assert(has_name(dim_names(d2), x));
    let c2a = ContainerV { dims: d1, gattrs: put_attrs(c0.gattrs, a.gattrs), ..c0 };
    let c1 = merge_schema_spec(c0, a);
    lemma_merge_schema_spec_unfold(c0, a);
    assert(c1 == merge_vars_upto(c2a, a, a.vars.len() as int));
    lemma_merge_vars_upto_preserves(c2a, a, a.vars.len() as int);
    assert(c1.dims == d1);
    let c2b = ContainerV { dims: merged_dims(c1.dims, b.dims), gattrs: put_attrs(c1.gattrs, b.gattrs), ..c1 };
    let c2 = merge_schema_spec(c1, b);
    lemma_merge_schema_spec_unfold(c1, b);
    assert(c2 == merge_vars_upto(c2b, b, b.vars.len() as int));
    lemma_merge_vars_upto_preserves(c2b, b, b.vars.len() as int);
    assert(c2.dims == d2);
    let c3 = ContainerV { mode: Mode::Data, ..c2 };
    lemma_spec_merge_unfold(a, b);
    let c4 = copy_data_spec(c3, a);
    let m = spec_merge(a, b);
    assert(m == copy_data_spec(c4, b));
    lemma_copy_data_upto_frame(c3, a, a.vars.len() as int);
    lemma_copy_data_upto_frame(c4, b, b.vars.len() as int);
    assert(dim_names(c4.dims) =~= dim_names(c3.dims));
    assert(dim_names(m.dims) =~= dim_names(c4.dims));
    assert(dim_names(m.dims) == dim_names(d2));
    lemma_find_name(dim_names(d2), x);
    lemma_count_name_from_unique(dim_names(d2), x, 0);
}

/// For two inputs with disjoint dimension and variable name sets, the merge
/// loses nothing: the merged container holds both inputs' dimensions and
/// both inputs' variables, and no others.
pub proof fn lemma_merge_disjoint_counts(a: ContainerV, b: ContainerV)
    requires
        wf_container(a),
        wf_container(b),
        forall|i: int, j: int|
            0 <= i < a.dims.len() && 0 <= j < b.dims.len() ==> (#[trigger] a.dims[i]).name != (
            #[trigger] b.dims[j]).name,
        forall|i: int, j: int|
            0 <= i < a.vars.len() && 0 <= j < b.vars.len() ==> (#[trigger] a.vars[i]).name != (
            #[trigger] b.vars[j]).name,
        spec_merge_ok(a, b),
    ensures
        spec_merge(a, b).dims.len() == a.dims.len() + b.dims.len(),
        spec_merge(a, b).vars.len() == a.vars.len() + b.vars.len(),
{
    let c0 = empty_container(a.format);
    let d1 = merged_dims(c0.dims, a.dims);
    let d2 = merged_dims(d1, b.dims);
    assert forall|j: int| 0 <= j < a.dims.len() implies !has_name(
        dim_names(c0.dims),
        (#[trigger] a.dims[j]).name,
    ) by {
        lemma_find_name(dim_names(c0.dims), a.dims[j].name);
    };
    lemma_merge_dims_upto_fresh(c0.dims, a.dims, a.dims.len() as int);
    assert(d1.len() == a.dims.len());
    assert forall|j: int| 0 <= j < b.dims.len() implies !has_name(
        dim_names(d1),
        (#[trigger] b.dims[j]).name,
    ) by {
        lemma_find_name(dim_names(d1), b.dims[j].name);
        let f = find_name(dim_names(d1), b.dims[j].name);
        if f != -1 {
            assert(dim_names(d1)[f] == d1[f].name);
            assert(d1[f] == def_dim_of(a.dims[f]));
            assert(a.dims[f].name == b.dims[j].name);
            assert(false);
        }
    };
    lemma_merge_dims_upto_fresh(d1, b.dims, b.dims.len() as int);
    assert(d2.len() == a.dims.len() + b.dims.len());
    let c2a = ContainerV { dims: d1, gattrs: put_attrs(c0.gattrs, a.gattrs), ..c0 };
    let c1 = merge_schema_spec(c0, a);
    lemma_merge_schema_spec_unfold(c0, a);
    assert(c1 == merge_vars_upto(c2a, a, a.vars.len() as int));
    assert forall|j: int| 0 <= j < a.vars.len() implies !has_name(
        var_names(c2a.vars),
        (#[trigger] a.vars[j]).name,
    ) by {
        lemma_find_name(var_names(c2a.vars), a.vars[j].name);
    };
    assert forall|j: int| 0 <= j < a.vars.len() implies refs_resolvable(
        a.dims,
        (#[trigger] a.vars[j]).dim_refs,
        c2a.dims,
    ) by {
        assert(wf_var(a.vars[j], a.dims));
        assert forall|k: int| 0 <= k < a.vars[j].dim_refs.len() implies 0 <= (#[trigger] a.vars[
            j
        ].dim_refs[k]) < a.dims.len() && has_name(
            dim_names(c2a.dims),
            a.dims[a.vars[j].dim_refs[k]].name,
        ) by {
            let rr = a.vars[j].dim_refs[k];
            assert(d1[rr] == def_dim_of(a.dims[rr]));
            assert(dim_names(d1)[rr] == a.dims[rr].name);
            lemma_has_name_at(dim_names(d1), rr);
        };
    };
    lemma_merge_vars_upto_fresh(c2a, a, a.vars.len() as int);
    assert(c1.vars.len() == a.vars.len());
    let c2b = ContainerV {
        dims: merged_dims(c1.dims, b.dims),
        gattrs: put_attrs(c1.gattrs, b.gattrs),
        ..c1
    };
    let c2 = merge_schema_spec(c1, b);
    lemma_merge_schema_spec_unfold(c1, b);
    assert(c2 == merge_vars_upto(c2b, b, b.vars.len() as int));
    lemma_merge_vars_upto_preserves(c2a, a, a.vars.len() as int);
    assert(c1.dims == d1);
    assert(c2b.dims == d2);
    assert forall|j: int| 0 <= j < b.vars.len() implies !has_name(
        var_names(c2b.vars),
        (#[trigger] b.vars[j]).name,
    ) by {
        lemma_find_name(var_names(c2b.vars), b.vars[j].name);
        let f = find_name(var_names(c2b.vars), b.vars[j].name);
        if f != -1 {
            assert(var_names(c2b.vars)[f] == c2b.vars[f].name);
            assert(c2b.vars[f] == new_var_of(a.vars[f], a.dims, c2a.dims));
            assert(a.vars[f].name == b.vars[j].name);
            assert(false);
        }
    };
    assert forall|j: int| 0 <= j < b.vars.len() implies refs_resolvable(
        b.dims,
        (#[trigger] b.vars[j]).dim_refs,
        c2b.dims,
    ) by {
        assert(wf_var(b.vars[j], b.dims));
        lemma_merge_dims_upto_props(d1, b.dims, b.dims.len() as int);
        assert forall|k: int| 0 <= k < b.vars[j].dim_refs.len() implies 0 <= (#[trigger] b.vars[
            j
        ].dim_refs[k]) < b.dims.len() && has_name(
            dim_names(c2b.dims),
            b.dims[b.vars[j].dim_refs[k]].name,
        ) by {
            let rr = b.vars[j].dim_refs[k];
            assert(0 <= rr < b.dims.len() && b.dims[rr].name == b.dims[rr].name);
        };
    };
    lemma_merge_vars_upto_fresh(c2b, b, b.vars.len() as int);
    assert(c2.vars.len() == a.vars.len() + b.vars.len());
    let c3 = ContainerV { mode: Mode::Data, ..c2 };
    lemma_spec_merge_unfold(a, b);
    let c4 = copy_data_spec(c3, a);
    let m = spec_merge(a, b);
    assert(m == copy_data_spec(c4, b));
    lemma_copy_data_upto_find(c3, a, a.vars.len() as int, Seq::<char>::empty());
    lemma_copy_data_upto_find(c4, b, b.vars.len() as int, Seq::<char>::empty());
    lemma_merge_vars_upto_preserves(c2b, b, b.vars.len() as int);
    assert(c2.dims == d2);
    assert(m.dims.len() == a.dims.len() + b.dims.len());
    assert(m.vars.len() == a.vars.len() + b.vars.len());
}

/// A successful merge of two well-formed containers yields a well-formed
/// schema: dimension and variable names stay pairwise distinct, at most one
/// dimension is unlimited, every dimension reference resolves, and every
/// attribute is sized by its declared type and count.
///
/// Payload sizing is not claimed: the two inputs may define a shared
/// variable name over different shapes, and the override policy copies the
/// second input's payload bytes unchanged.
pub proof fn lemma_merge_preserves_schema(a: ContainerV, b: ContainerV)
    requires
        wf_container(a),
        wf_container(b),
        spec_merge_ok(a, b),
    ensures
        ({
            let m = spec_merge(a, b);
            &&& crate::model::wf_dims(m.dims)
            &&& unique_names(var_names(m.vars))
            &&& crate::model::wf_attrs(m.gattrs)
            &&& forall|i: int| 0 <= i < m.vars.len() ==> wf_var(#[trigger] m.vars[i], m.dims)
        }),
{
    let c0 = empty_container(a.format);
    let n_av = a.vars.len() as int;
    let n_bv = b.vars.len() as int;
    // Dimensions.
    let d1 = merged_dims(c0.dims, a.dims);
    let d2 = merged_dims(d1, b.dims);
    lemma_merge_dims_upto_props(c0.dims, a.dims, a.dims.len() as int);
    lemma_merge_dims_upto_props(d1, b.dims, b.dims.len() as int);
    assert(!dims_conflict(c0.dims, a.dims));
    lemma_merge_dims_upto_one_unlimited(c0.dims, a.dims, a.dims.len() as int);
    lemma_merge_dims_upto_one_unlimited(d1, b.dims, b.dims.len() as int);
    assert(crate::model::wf_dims(d2));
    // Stage one: A's schema.
    let c2a = ContainerV {
        dims: d1,
        gattrs: put_attrs(c0.gattrs, a.gattrs),
        ..c0
    };
    let c1 = merge_schema_spec(c0, a);
    lemma_merge_schema_spec_unfold(c0, a);
    assert(c1 == merge_vars_upto(c2a, a, n_av));
    lemma_merge_vars_upto_preserves(c2a, a, n_av);
    lemma_merge_vars_upto_unique(c2a, a, n_av);
    lemma_merge_vars_upto_wf(c2a, a, n_av);
    lemma_put_attrs_upto_wf(c0.gattrs, a.gattrs, a.gattrs.len() as int);
    // Stage two: B's schema, against the grown dimension list.
    let c2b = ContainerV {
        dims: merged_dims(c1.dims, b.dims),
        gattrs: put_attrs(c1.gattrs, b.gattrs),
        ..c1
    };
    let c2 = merge_schema_spec(c1, b);
    lemma_merge_schema_spec_unfold(c1, b);
    assert(c2 == merge_vars_upto(c2b, b, n_bv));
    assert(c2b.dims == d2);
    assert forall|p: int| 0 <= p < c2b.vars.len() implies wf_var(
        #[trigger] c2b.vars[p],
        c2b.dims,
    ) by {
        assert(wf_var(c1.vars[p], d1));
        assert(d2.len() >= d1.len());
    };
    lemma_merge_vars_upto_preserves(c2b, b, n_bv);
    lemma_merge_vars_upto_unique(c2b, b, n_bv);
    lemma_merge_vars_upto_wf(c2b, b, n_bv);
    lemma_put_attrs_upto_wf(c1.gattrs, b.gattrs, b.gattrs.len() as int);
    // Payload copies keep the whole schema.
    let c3 = ContainerV { mode: Mode::Data, ..c2 };
    lemma_spec_merge_unfold(a, b);
    let c4 = copy_data_spec(c3, a);
    let m = spec_merge(a, b);
    assert(m == copy_data_spec(c4, b));
    lemma_copy_data_upto_frame(c3, a, n_av);
    lemma_copy_data_upto_frame(c4, b, n_bv);
    lemma_copy_data_upto_preserves(c3, a, n_av);
    lemma_copy_data_upto_preserves(c4, b, n_bv);
    assert(dim_names(c4.dims) =~= dim_names(c3.dims));
    assert(dim_names(m.dims) =~= dim_names(c4.dims));
    assert(var_names(m.vars) == var_names(c2.vars));
    assert forall|p: int, q: int|
        0 <= p < q < m.dims.len() && m.dims[p].unlimited implies !m.dims[q].unlimited by {
        assert(c4.dims[p] == DimV { len: c4.dims[p].len, ..c3.dims[p] });
        assert(c4.dims[q] == DimV { len: c4.dims[q].len, ..c3.dims[q] });
        assert(m.dims[p] == DimV { len: m.dims[p].len, ..c4.dims[p] });
        assert(m.dims[q] == DimV { len: m.dims[q].len, ..c4.dims[q] });
        assert(c3.dims[p].unlimited);
    };
    assert(crate::model::wf_dims(m.dims));
    assert forall|i: int| 0 <= i < m.vars.len() implies wf_var(#[trigger] m.vars[i], m.dims) by {
        assert(wf_var(c2.vars[i], d2));
        assert(c4.vars[i] == VarV { data: c4.vars[i].data, ..c3.vars[i] });
        assert(m.vars[i] == VarV { data: m.vars[i].data, ..c4.vars[i] });
        assert(m.dims.len() == d2.len());
    };
}

/// Merging a container with itself yields that container back: dimensions,
/// variables (payloads included) and global attributes are all preserved
/// (idempotence under duplicate input).
///
/// An unlimited dimension with a positive current extent must be spanned by
/// some variable: the merge recovers such an extent from the payload writes,
/// so an extent no variable covers would come back as zero.
pub proof fn lemma_merge_idempotent(a: ContainerV)
    requires
        wf_container(a),
        forall|u: int|
            0 <= u < a.dims.len() && (#[trigger] a.dims[u]).unlimited && a.dims[u].len > 0
                ==> exists|i: int|
                0 <= i < a.vars.len() && (#[trigger] a.vars[i]).dim_refs.contains(u),
    ensures
        spec_merge_ok(a, a),
        spec_merge(a, a).dims == a.dims,
        spec_merge(a, a).vars == a.vars,
        spec_merge(a, a).gattrs == a.gattrs,
{
    let c0 = empty_container(a.format);
    let n_d = a.dims.len() as int;
    let n_v = a.vars.len() as int;
    // Dimensions: the first pass defines them all, the second skips them all.
    assert forall|j: int| 0 <= j < n_d implies !has_name(
        dim_names(c0.dims),
        (#[trigger] a.dims[j]).name,
    ) by {
        lemma_find_name(dim_names(c0.dims), a.dims[j].name);
    };
    lemma_merge_dims_upto_fresh(c0.dims, a.dims, n_d);
    let d1 = merged_dims(c0.dims, a.dims);
    assert(d1 =~= Seq::new(a.dims.len(), |j: int| def_dim_of(a.dims[j])));
    assert(dim_names(d1) =~= dim_names(a.dims));
    assert forall|j: int| 0 <= j < n_d implies has_name(
        dim_names(d1),
        (#[trigger] a.dims[j]).name,
    ) by {
        assert(dim_names(a.dims)[j] == a.dims[j].name);
        lemma_has_name_at(dim_names(d1), j);
    };
    assert(spec_merge_ok(a, a)) by {
        if dims_conflict(d1, a.dims) {
            let i = choose|i: int|
                0 <= i < a.dims.len() && (#[trigger] a.dims[i]).unlimited && !has_name(
                    dim_names(d1),
                    a.dims[i].name,
                );
            assert(false);
        }
    }
    lemma_merge_dims_upto_existing(d1, a.dims, n_d);
    let d2 = merged_dims(d1, a.dims);
    assert(d2 == d1);
    // Variables, first pass: every definition is copied, with its references
    // landing back on the same indices.
    let c2a = ContainerV { dims: d1, gattrs: put_attrs(c0.gattrs, a.gattrs), ..c0 };
    let c1 = merge_schema_spec(c0, a);
    lemma_merge_schema_spec_unfold(c0, a);
    assert(c1 == merge_vars_upto(c2a, a, n_v));
    assert forall|j: int| 0 <= j < n_v implies !has_name(
        var_names(c2a.vars),
        (#[trigger] a.vars[j]).name,
    ) by {
        lemma_find_name(var_names(c2a.vars), a.vars[j].name);
    };
    assert forall|j: int| 0 <= j < n_v implies refs_resolvable(
        a.dims,
        (#[trigger] a.vars[j]).dim_refs,
        c2a.dims,
    ) by {
        assert(wf_var(a.vars[j], a.dims));
        assert forall|k: int| 0 <= k < a.vars[j].dim_refs.len() implies 0 <= (#[trigger] a.vars[
            j
        ].dim_refs[k]) < a.dims.len() && has_name(
            dim_names(c2a.dims),
            a.dims[a.vars[j].dim_refs[k]].name,
        ) by {
            let rr = a.vars[j].dim_refs[k];
            assert(dim_names(a.dims)[rr] == a.dims[rr].name);
            lemma_has_name_at(dim_names(d1), rr);
        };
    };
    lemma_merge_vars_upto_fresh(c2a, a, n_v);
    let vstar = Seq::new(a.vars.len(), |j: int| VarV { data: Seq::<u8>::empty(), ..a.vars[j] });
    assert(c1.vars =~= Seq::new(
        a.vars.len(),
        |j: int| new_var_of(a.vars[j], a.dims, c2a.dims),
    ));
    assert forall|j: int| 0 <= j < n_v implies c1.vars[j] == vstar[j] by {
        assert(wf_var(a.vars[j], a.dims));
        assert(c1.vars[j] == new_var_of(a.vars[j], a.dims, d1));
        assert(resolved_refs(a.dims, a.vars[j].dim_refs, d1) =~= a.vars[j].dim_refs) by {
            assert forall|k: int|
                0 <= k < a.vars[j].dim_refs.len() implies resolved_refs(
                a.dims,
                a.vars[j].dim_refs,
                d1,
            )[k] == a.vars[j].dim_refs[k] by {
                let rr = a.vars[j].dim_refs[k];
                lemma_find_name_unique(dim_names(a.dims), rr);
                assert(dim_names(a.dims)[rr] == a.dims[rr].name);
                assert(dim_names(d1) == dim_names(a.dims));
            };
        }
        lemma_put_attrs_upto_empty(a.vars[j].attrs, a.vars[j].attrs.len() as int);
        assert(a.vars[j].attrs.take(a.vars[j].attrs.len() as int) =~= a.vars[j].attrs);
        assert(new_var_of(a.vars[j], a.dims, d1) =~= VarV {
            data: Seq::<u8>::empty(),
            ..a.vars[j]
        });
    };
    assert(c1.vars =~= vstar);
    assert(var_names(c1.vars) =~= var_names(a.vars));
    // Variables, second pass: every name collides and every attribute write
    // repeats the value already there.
    lemma_merge_vars_upto_preserves(c2a, a, n_v);
    assert(c1.dims == d1);
    let c2b = ContainerV {
        dims: merged_dims(c1.dims, a.dims),
        gattrs: put_attrs(c1.gattrs, a.gattrs),
        ..c1
    };
    let c2 = merge_schema_spec(c1, a);
    lemma_merge_schema_spec_unfold(c1, a);
    assert(c2 == merge_vars_upto(c2b, a, n_v));
    assert forall|j: int|
        0 <= j < n_v implies {
        let jj = find_name(var_names(c2b.vars), (#[trigger] a.vars[j]).name);
        &&& jj != -1
        &&& put_attrs(c2b.vars[jj].attrs, a.vars[j].attrs) == c2b.vars[jj].attrs
    } by {
        assert(wf_var(a.vars[j], a.dims));
        lemma_find_name_unique(var_names(a.vars), j);
        assert(var_names(a.vars)[j] == a.vars[j].name);
        assert(var_names(c2b.vars) == var_names(a.vars));
        assert(find_name(var_names(c2b.vars), a.vars[j].name) == j);
        assert(c2b.vars[j] == vstar[j]);
        assert(c2b.vars[j].attrs == a.vars[j].attrs);
        lemma_put_attrs_upto_self(a.vars[j].attrs, a.vars[j].attrs.len() as int);
    };
    lemma_merge_vars_upto_identity(c2b, a, n_v);
    assert(c2 == c2b);
    // Global attributes.
    lemma_put_attrs_upto_empty(a.gattrs, a.gattrs.len() as int);
    assert(a.gattrs.take(a.gattrs.len() as int) =~= a.gattrs);
    assert(c1.gattrs == a.gattrs);
    lemma_put_attrs_upto_self(a.gattrs, a.gattrs.len() as int);
    assert(c2.gattrs == a.gattrs);
    // Payload copies restore every payload and every unlimited extent.
    let c3 = ContainerV { mode: Mode::Data, ..c2 };
    lemma_spec_merge_unfold(a, a);
    let c4 = copy_data_spec(c3, a);
    let m = spec_merge(a, a);
    assert(m == copy_data_spec(c4, a));
    assert(c3.vars == c2b.vars);
    assert(var_names(c3.vars) == var_names(a.vars));
    lemma_copy_data_upto_frame(c3, a, n_v);
    assert forall|p: int| 0 <= p < n_v implies c4.vars[p] == a.vars[p] by {
        lemma_copy_data_upto_find(c3, a, n_v, (#[trigger] a.vars[p]).name);
        lemma_find_name_unique(var_names(a.vars), p);
        assert(var_names(a.vars)[p] == a.vars[p].name);
        assert(c4.vars[p].data == a.vars[p].data);
        assert(c4.vars[p] == VarV { data: c4.vars[p].data, ..c3.vars[p] });
        assert(c3.vars[p] == vstar[p]);
        assert(c4.vars[p] =~= a.vars[p]);
    };
    assert(c4.vars =~= a.vars);
    assert(var_names(c4.vars) == var_names(a.vars));
    lemma_copy_data_upto_frame(c4, a, n_v);
    assert forall|p: int| 0 <= p < n_v implies m.vars[p] == a.vars[p] by {
        lemma_copy_data_upto_find(c4, a, n_v, (#[trigger] a.vars[p]).name);
        lemma_find_name_unique(var_names(a.vars), p);
        assert(var_names(a.vars)[p] == a.vars[p].name);
        assert(m.vars[p].data == a.vars[p].data);
        assert(m.vars[p] == VarV { data: m.vars[p].data, ..c4.vars[p] });
        assert(m.vars[p] =~= a.vars[p]);
    };
    assert(m.vars =~= a.vars);
    // Dimensions through the payload copies.
    assert(c3.dims == d1);
    assert forall|u: int| 0 <= u < n_d implies c4.dims[u] == (#[trigger] a.dims[u]) by {
        lemma_copy_data_upto_dims(c3, a, n_v, u);
        assert(c3.dims[u] == def_dim_of(a.dims[u]));
        lemma_find_name_unique(dim_names(a.dims), u);
        assert(dim_names(a.dims)[u] == a.dims[u].name);
        if a.dims[u].unlimited {
            lemma_has_name_at(dim_names(a.dims), u);
            if a.dims[u].len > 0 {
                let i = choose|i: int|
                    0 <= i < a.vars.len() && (#[trigger] a.vars[i]).dim_refs.contains(u);
                lemma_find_name_unique(var_names(a.vars), i);
                assert(var_names(a.vars)[i] == a.vars[i].name);
                assert(find_name(var_names(c3.vars), a.vars[i].name) == i);
                assert(c3.vars[i] == vstar[i]);
                assert(c3.vars[i].dim_refs == a.vars[i].dim_refs);
                assert(0 <= i < n_v && {
                    let jj = find_name(var_names(c3.vars), a.vars[i].name);
                    jj != -1 && c3.vars[jj].dim_refs.contains(u)
                });
                assert(c4.dims[u] == DimV {
                    len: a.dims[find_name(dim_names(a.dims), c3.dims[u].name)].len,
                    ..c3.dims[u]
                });
                assert(c4.dims[u] =~= a.dims[u]);
            } else {
                assert(def_dim_of(a.dims[u]) =~= a.dims[u]);
                assert(DimV {
                    len: a.dims[find_name(dim_names(a.dims), c3.dims[u].name)].len,
                    ..c3.dims[u]
                } =~= a.dims[u]);
            }
        } else {
            assert(def_dim_of(a.dims[u]) =~= a.dims[u]);
        }
    };
    assert(c4.dims =~= a.dims);
    assert forall|u: int| 0 <= u < n_d implies m.dims[u] == (#[trigger] a.dims[u]) by {
        lemma_copy_data_upto_dims(c4, a, n_v, u);
        assert(c4.dims[u] == a.dims[u]);
        lemma_find_name_unique(dim_names(a.dims), u);
        assert(dim_names(a.dims)[u] == a.dims[u].name);
        assert(DimV {
            len: a.dims[find_name(dim_names(a.dims), c4.dims[u].name)].len,
            ..c4.dims[u]
        } =~= a.dims[u]);
    };
    assert(m.dims =~= a.dims);
    // Global attributes survive the payload copies untouched.
    lemma_copy_data_upto_preserves(c3, a, n_v);
    lemma_copy_data_upto_preserves(c4, a, n_v);
    assert(m.gattrs == a.gattrs);
}

} // verus!
