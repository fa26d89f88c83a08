//! The merge engine: schema reconciliation (dimensions, variables,
//! attributes, layout descriptors) and payload copying from two source
//! containers into a fresh destination.
//!
//! Definitions are copied by name and never overwrite an existing definition
//! (first writer wins); attribute values always overwrite (last writer wins);
//! payload bytes always overwrite (last writer wins). Dimension references of
//! a copied variable are re-resolved by name against the destination, never
//! reused numerically.

use crate::errors::MergeError;
use crate::model::at_most_one_unlimited;
use crate::model::attr_names;
use crate::model::clone_attr;
use crate::model::clone_chunking;
use crate::model::copy_bytes;
use crate::model::dim_names;
use crate::model::find_name;
use crate::model::has_name;
use crate::model::has_unlimited;
use crate::model::lemma_attr_names_push;
use crate::model::lemma_attr_names_update;
use crate::model::lemma_dim_names_push;
use crate::model::lemma_dim_names_update;
use crate::model::lemma_find_name;
use crate::model::lemma_find_name_push;
use crate::model::lemma_find_name_update;
use crate::model::lemma_var_names_push;
use crate::model::lemma_var_names_update;
use crate::model::put_attr;
use crate::model::var_names;
use crate::model::AttrV;
use crate::model::Container;
use crate::model::ContainerV;
use crate::model::DimV;
use crate::model::Format;
use crate::model::Mode;
use crate::model::VarV;
use vstd::prelude::*;

verus! {

broadcast use {
    lemma_attr_names_push,
    lemma_attr_names_update,
    lemma_dim_names_push,
    lemma_dim_names_update,
    lemma_find_name_push,
    lemma_find_name_update,
    lemma_var_names_push,
    lemma_var_names_update,
};

// ---------------------------------------------------------------------------
// The merge, as a mathematical function
// ---------------------------------------------------------------------------

/// The dimension that copying `d` defines: the unlimited flag is preserved,
/// and an unlimited dimension starts with extent 0 at definition time.
pub open spec fn def_dim_of(d: DimV) -> DimV {
    DimV { len: if d.unlimited { 0 } else { d.len }, ..d }
}

/// Copy one dimension into a dimension list, unless its name is taken.
pub open spec fn put_dim(dims: Seq<DimV>, d: DimV) -> Seq<DimV> {
    if has_name(dim_names(dims), d.name) {
        dims
    } else {
        dims.push(def_dim_of(d))
    }
}

/// Copy the first `n` source dimensions, in order.
pub open spec fn merge_dims_upto(dims: Seq<DimV>, src: Seq<DimV>, n: int) -> Seq<DimV>
    decreases n,
{
    if n <= 0 {
        dims
    } else {
        put_dim(merge_dims_upto(dims, src, n - 1), src[n - 1])
    }
}

/// Copy all source dimensions, in order.
pub open spec fn merged_dims(dims: Seq<DimV>, src: Seq<DimV>) -> Seq<DimV> {
    merge_dims_upto(dims, src, src.len() as int)
}

/// Copying the source dimensions would need a second unlimited dimension.
pub open spec fn dims_conflict(dims: Seq<DimV>, src: Seq<DimV>) -> bool {
    has_unlimited(dims) && exists|i: int|
        0 <= i < src.len() && (#[trigger] src[i]).unlimited && !has_name(
            dim_names(dims),
            src[i].name,
        )
}

/// Write the first `n` source attributes, in order, each overwriting a
/// same-named one.
pub open spec fn put_attrs_upto(attrs: Seq<AttrV>, src: Seq<AttrV>, n: int) -> Seq<AttrV>
    decreases n,
{
    if n <= 0 {
        attrs
    } else {
        put_attr(put_attrs_upto(attrs, src, n - 1), src[n - 1])
    }
}

/// Write all source attributes, in order.
pub open spec fn put_attrs(attrs: Seq<AttrV>, src: Seq<AttrV>) -> Seq<AttrV> {
    put_attrs_upto(attrs, src, src.len() as int)
}

/// Re-resolve dimension references by name against the destination.
pub open spec fn resolved_refs(src_dims: Seq<DimV>, refs: Seq<int>, dest_dims: Seq<DimV>) -> Seq<
    int,
> {
    refs.map_values(|r: int| find_name(dim_names(dest_dims), src_dims[r].name))
}

/// Every reference names a source dimension whose name the destination knows.
pub open spec fn refs_resolvable(src_dims: Seq<DimV>, refs: Seq<int>, dest_dims: Seq<DimV>) -> bool {
    forall|k: int|
        0 <= k < refs.len() ==> 0 <= #[trigger] refs[k] < src_dims.len() && has_name(
            dim_names(dest_dims),
            src_dims[refs[k]].name,
        )
}

/// The variable that copying `sv` defines: same name and type, references
/// re-resolved by name, attributes and layout descriptors copied, payload
/// still empty.
pub open spec fn new_var_of(sv: VarV, src_dims: Seq<DimV>, dest_dims: Seq<DimV>) -> VarV {
    VarV {
        name: sv.name,
        ty: sv.ty,
        dim_refs: resolved_refs(src_dims, sv.dim_refs, dest_dims),
        attrs: put_attrs(Seq::<AttrV>::empty(), sv.attrs),
        chunking: sv.chunking,
        compression: sv.compression,
        data: Seq::<u8>::empty(),
    }
}

/// Copy the definition of source variable `i`: a fresh name is defined with
/// its attributes and layout; an existing name only receives the source's
/// attribute values; a variable whose references do not resolve is skipped.
pub open spec fn merge_var_def(c: ContainerV, src: ContainerV, i: int) -> ContainerV {
    let sv = src.vars[i];
    let j = find_name(var_names(c.vars), sv.name);
    if j != -1 {
        ContainerV {
            vars: c.vars.update(
                j,
                VarV { attrs: put_attrs(c.vars[j].attrs, sv.attrs), ..c.vars[j] },
            ),
            ..c
        }
    } else if refs_resolvable(src.dims, sv.dim_refs, c.dims) {
        ContainerV { vars: c.vars.push(new_var_of(sv, src.dims, c.dims)), ..c }
    } else {
        c
    }
}

/// Copy the definitions of the first `n` source variables, in order.
pub open spec fn merge_vars_upto(c: ContainerV, src: ContainerV, n: int) -> ContainerV
    decreases n,
{
    if n <= 0 {
        c
    } else {
        merge_var_def(merge_vars_upto(c, src, n - 1), src, n - 1)
    }
}

/// Copy one source's whole schema: global attributes, then dimensions, then
/// variable definitions.
pub open spec fn merge_schema_spec(c: ContainerV, src: ContainerV) -> ContainerV {
    let c1 = ContainerV { gattrs: put_attrs(c.gattrs, src.gattrs), ..c };
    let c2 = ContainerV { dims: merged_dims(c1.dims, src.dims), ..c1 };
    merge_vars_upto(c2, src, src.vars.len() as int)
}

/// Extents after a payload write along processed references `refs.take(m)`:
/// an unlimited destination dimension referenced by the written variable
/// takes the extent of the same-named source dimension.
pub open spec fn bump_unlimited(
    dims: Seq<DimV>,
    refs: Seq<int>,
    src_dims: Seq<DimV>,
    m: int,
) -> Seq<DimV> {
    Seq::new(
        dims.len(),
        |k: int|
            if dims[k].unlimited && refs.take(m).contains(k) && has_name(
                dim_names(src_dims),
                dims[k].name,
            ) {
                DimV { len: src_dims[find_name(dim_names(src_dims), dims[k].name)].len, ..dims[k] }
            } else {
                dims[k]
            },
    )
}

/// Copy the payload of source variable `i` onto the same-named destination
/// variable, if any, updating the extent of an unlimited dimension the
/// variable spans.
pub open spec fn copy_var_data_spec(c: ContainerV, src: ContainerV, i: int) -> ContainerV {
    let sv = src.vars[i];
    let j = find_name(var_names(c.vars), sv.name);
    if j == -1 {
        c
    } else {
        ContainerV {
            vars: c.vars.update(j, VarV { data: sv.data, ..c.vars[j] }),
            dims: bump_unlimited(c.dims, c.vars[j].dim_refs, src.dims, c.vars[j].dim_refs.len() as int),
            ..c
        }
    }
}

/// Copy the payloads of the first `n` source variables, in order.
pub open spec fn copy_data_upto(c: ContainerV, src: ContainerV, n: int) -> ContainerV
    decreases n,
{
    if n <= 0 {
        c
    } else {
        copy_var_data_spec(copy_data_upto(c, src, n - 1), src, n - 1)
    }
}

/// Copy all payloads of one source, in order.
pub open spec fn copy_data_spec(c: ContainerV, src: ContainerV) -> ContainerV {
    copy_data_upto(c, src, src.vars.len() as int)
}

/// A fresh destination in define mode.
pub open spec fn empty_container(f: Format) -> ContainerV {
    ContainerV {
        format: f,
        mode: Mode::Define,
        dims: Seq::<DimV>::empty(),
        vars: Seq::<VarV>::empty(),
        gattrs: Seq::<AttrV>::empty(),
    }
}

/// The two-part merge succeeds unless the second source would introduce a
/// second unlimited dimension.
pub open spec fn spec_merge_ok(a: ContainerV, b: ContainerV) -> bool {
    !dims_conflict(merged_dims(Seq::<DimV>::empty(), a.dims), b.dims)
}

/// The merged container: A's schema, then B's, then A's payloads, then B's,
/// into an empty destination of A's format.
pub open spec fn spec_merge(a: ContainerV, b: ContainerV) -> ContainerV {
    let c1 = merge_schema_spec(empty_container(a.format), a);
    let c2 = merge_schema_spec(c1, b);
    let c3 = ContainerV { mode: Mode::Data, ..c2 };
    let c4 = copy_data_spec(c3, a);
    copy_data_spec(c4, b)
}

// ---------------------------------------------------------------------------
// Executable schema merger
// ---------------------------------------------------------------------------

/// Copy every global attribute of `src` onto `dest`, overwriting same-named
/// ones.
pub fn merge_global_attrs(dest: &mut Container, src: &Container)
    requires
        old(dest)@.mode == Mode::Define,
    ensures
        final(dest)@ == (ContainerV { gattrs: put_attrs(old(dest)@.gattrs, src@.gattrs), ..old(
            dest,
        )@ }),
{
    let mut k: usize = 0;
    while k < src.gattrs.len()
        invariant
            k <= src.gattrs.len(),
            old(dest)@.mode == Mode::Define,
            dest@ == (ContainerV {
                gattrs: put_attrs_upto(old(dest)@.gattrs, src@.gattrs, k as int),
                ..old(dest)@
            }),
        decreases src.gattrs.len() - k,
    {
        dest.put_attr_global(clone_attr(&src.gattrs[k]));
        k = k + 1;
        proof {
            assert(dest@ =~= ContainerV {
                gattrs: put_attrs_upto(old(dest)@.gattrs, src@.gattrs, k as int),
                ..old(dest)@
            });
        }
    }
    proof {
        assert(dest@ =~= ContainerV { gattrs: put_attrs(old(dest)@.gattrs, src@.gattrs), ..old(
            dest,
        )@ });
    }
}

/// Existing names survive copying further dimensions.
proof fn lemma_merge_dims_upto_keeps_name(
    dims: Seq<DimV>,
    src: Seq<DimV>,
    n: int,
    name: Seq<char>,
)
    requires
        has_name(dim_names(dims), name),
    ensures
        has_name(dim_names(merge_dims_upto(dims, src, n)), name),
    decreases n,
{
    if n > 0 {
        lemma_merge_dims_upto_keeps_name(dims, src, n - 1, name);
    }
}

/// Copy every dimension of `src` that `dest` does not already have by name.
/// Fails, changing nothing, if that would give `dest` a second unlimited
/// dimension.
pub fn merge_dims(dest: &mut Container, src: &Container) -> (r: Result<(), MergeError>)
    requires
        old(dest)@.mode == Mode::Define,
        at_most_one_unlimited(src@.dims),
    ensures
        match r {
            Ok(()) => !dims_conflict(old(dest)@.dims, src@.dims) && final(dest)@ == (ContainerV {
                dims: merged_dims(old(dest)@.dims, src@.dims),
                ..old(dest)@
            }),
            Err(e) => dims_conflict(old(dest)@.dims, src@.dims) && e
                == MergeError::DefinitionConflict && final(dest)@ == old(dest)@,
        },
{
    if dest.has_unlimited_dim() {
        let mut i: usize = 0;
        while i < src.dims.len()
            invariant
                i <= src.dims.len(),
                dest@ == old(dest)@,
                has_unlimited(old(dest)@.dims),
                forall|j: int|
                    0 <= j < i ==> !((#[trigger] src@.dims[j]).unlimited && !has_name(
                        dim_names(dest@.dims),
                        src@.dims[j].name,
                    )),
            decreases src.dims.len() - i,
        {
            if src.dims[i].unlimited {
                match dest.find_dim(&src.dims[i].name) {
                    None => {
                        proof {
                            assert(src@.dims[i as int].unlimited && !has_name(
                                dim_names(dest@.dims),
                                src@.dims[i as int].name,
                            ));
                        }
                        return Err(MergeError::DefinitionConflict);
                    },
                    Some(_) => {},
                }
            }
            i = i + 1;
        }
    }
    proof {
        assert(!dims_conflict(dest@.dims, src@.dims));
    }
    let mut i: usize = 0;
    while i < src.dims.len()
        invariant
            i <= src.dims.len(),
            old(dest)@.mode == Mode::Define,
            at_most_one_unlimited(src@.dims),
            !dims_conflict(old(dest)@.dims, src@.dims),
            dest@ == (ContainerV {
                dims: merge_dims_upto(old(dest)@.dims, src@.dims, i as int),
                ..old(dest)@
            }),
            has_unlimited(dest@.dims) ==> has_unlimited(old(dest)@.dims) || exists|j: int|
                0 <= j < i && (#[trigger] src@.dims[j]).unlimited,
        decreases src.dims.len() - i,
    {
        let ghost pre = dest@;
        let d = &src.dims[i];
        match dest.find_dim(&d.name) {
            Some(_) => {
                proof {
                    assert(put_dim(pre.dims, src@.dims[i as int]) == pre.dims);
                }
            },
            None => {
                proof {
                    if d@.unlimited && has_unlimited(dest@.dims) {
                        if has_unlimited(old(dest)@.dims) {
                            assert(!(src@.dims[i as int].unlimited && !has_name(
                                dim_names(old(dest)@.dims),
                                src@.dims[i as int].name,
                            )));
                            lemma_merge_dims_upto_keeps_name(
                                old(dest)@.dims,
                                src@.dims,
                                i as int,
                                src@.dims[i as int].name,
                            );
                        } else {
                            let j = choose|j: int|
                                0 <= j < i && (#[trigger] src@.dims[j]).unlimited;
                            assert(!src@.dims[i as int].unlimited);
                        }
                        assert(false);
                    }
                }
                let len = if d.unlimited {
                    0
                } else {
                    d.len
                };
                match dest.define_dim(d.name.clone(), len, d.unlimited) {
                    Ok(_) => {},
                    Err(e) => {
                        proof {
                            assert(false);
                        }
                        return Err(e);
                    },
                }
                proof {
                    assert(dest@.dims =~= put_dim(pre.dims, src@.dims[i as int]));
                }
            },
        }
        i = i + 1;
        proof {
            assert(dest@ =~= ContainerV {
                dims: merge_dims_upto(old(dest)@.dims, src@.dims, i as int),
                ..old(dest)@
            });
        }
    }
    proof {
        assert(dest@ =~= ContainerV { dims: merged_dims(old(dest)@.dims, src@.dims), ..old(
            dest,
        )@ });
    }
    Ok(())
}

/// Copy the definition of source variable `i` onto `dest`: a fresh name is
/// defined with re-resolved dimension references, attributes and layout
/// descriptors; an existing name only receives the source's attribute values
/// (first writer wins for structure, last writer wins for attribute values);
/// a variable whose dimension references do not resolve is skipped.
pub fn merge_var_definitions(dest: &mut Container, src: &Container, i: usize)
    requires
        old(dest)@.mode == Mode::Define,
        i < src@.vars.len(),
    ensures
        final(dest)@ == merge_var_def(old(dest)@, src@, i as int),
{
    let sv = &src.vars[i];
    match dest.find_var(&sv.name) {
        Some(j) => {
            proof {
                lemma_find_name(var_names(dest@.vars), src@.vars[i as int].name);
                assert(old(dest)@.vars[j as int] =~= VarV {
                    attrs: put_attrs_upto(
                        old(dest)@.vars[j as int].attrs,
                        src@.vars[i as int].attrs,
                        0,
                    ),
                    ..old(dest)@.vars[j as int]
                });
                assert(dest@ =~= ContainerV {
                    vars: old(dest)@.vars.update(
                        j as int,
                        VarV {
                            attrs: put_attrs_upto(
                                old(dest)@.vars[j as int].attrs,
                                src@.vars[i as int].attrs,
                                0,
                            ),
                            ..old(dest)@.vars[j as int]
                        },
                    ),
                    ..old(dest)@
                });
            }
            let mut k: usize = 0;
            while k < sv.attrs.len()
                invariant
                    k <= sv.attrs.len(),
                    old(dest)@.mode == Mode::Define,
                    i < src@.vars.len(),
                    sv@ == src@.vars[i as int],
                    0 <= j < old(dest)@.vars.len(),
                    j as int == find_name(var_names(old(dest)@.vars), src@.vars[i as int].name),
                    dest@ == (ContainerV {
                        vars: old(dest)@.vars.update(
                            j as int,
                            (VarV {
                                attrs: put_attrs_upto(
                                    old(dest)@.vars[j as int].attrs,
                                    src@.vars[i as int].attrs,
                                    k as int,
                                ),
                                ..old(dest)@.vars[j as int]
                            }),
                        ),
                        ..old(dest)@
                    }),
                decreases sv.attrs.len() - k,
            {
                dest.put_attr_var(j, clone_attr(&sv.attrs[k]));
                k = k + 1;
                proof {
                    assert(dest@ =~= ContainerV {
                        vars: old(dest)@.vars.update(
                            j as int,
                            VarV {
                                attrs: put_attrs_upto(
                                    old(dest)@.vars[j as int].attrs,
                                    src@.vars[i as int].attrs,
                                    k as int,
                                ),
                                ..old(dest)@.vars[j as int]
                            },
                        ),
                        ..old(dest)@
                    });
                }
            }
            proof {
                assert(dest@ =~= merge_var_def(old(dest)@, src@, i as int));
            }
        },
        None => {
            let mut refs: Vec<usize> = Vec::new();
            let mut k: usize = 0;
            while k < sv.dim_refs.len()
                invariant
                    k <= sv.dim_refs.len(),
                    i < src@.vars.len(),
                    sv@ == src@.vars[i as int],
                    dest@ == old(dest)@,
                    find_name(var_names(old(dest)@.vars), src@.vars[i as int].name) == -1,
                    refs@.len() == k,
                    forall|p: int| #![trigger src@.vars[i as int].dim_refs[p]]
                        0 <= p < k ==> 0 <= src@.vars[i as int].dim_refs[p] < src@.dims.len(),
                    forall|p: int| #![trigger refs@[p]]
                        0 <= p < k ==> refs@[p] as int == find_name(
                            dim_names(old(dest)@.dims),
                            src@.dims[src@.vars[i as int].dim_refs[p]].name,
                        ),
                    forall|p: int| #![trigger refs@[p]]
                        0 <= p < k ==> 0 <= refs@[p] < old(dest)@.dims.len(),
                decreases sv.dim_refs.len() - k,
            {
                let r = sv.dim_refs[k];
                if r >= src.dims.len() {
                    proof {
                        assert(!(0 <= src@.vars[i as int].dim_refs[k as int]
                            < src@.dims.len()));
                        assert(!refs_resolvable(
                            src@.dims,
                            src@.vars[i as int].dim_refs,
                            dest@.dims,
                        ));
                    }
                    return;
                }
                match dest.find_dim(&src.dims[r].name) {
                    Some(dj) => {
                        proof {
                            lemma_find_name(dim_names(dest@.dims), src@.dims[r as int].name);
                        }
                        let ghost refs0 = refs@;
                        refs.push(dj);
                        proof {
                            assert forall|p: int| #![trigger src@.vars[i as int].dim_refs[p]]
                                0 <= p < k + 1 implies 0 <= src@.vars[i as int].dim_refs[p]
                                < src@.dims.len() by {
                                if p == k {
                                    assert(src@.vars[i as int].dim_refs[p] == r as int);
                                }
                            };
                            assert forall|p: int| #![trigger refs@[p]]
                                0 <= p < k + 1 implies refs@[p] as int == find_name(
                                dim_names(old(dest)@.dims),
                                src@.dims[src@.vars[i as int].dim_refs[p]].name,
                            ) && 0 <= refs@[p] < old(dest)@.dims.len() by {
                                if p < k {
                                    assert(refs@[p] == refs0[p]);
                                    assert(0 <= refs0[p] < old(dest)@.dims.len());
                                } else {
                                    assert(refs@[p] == dj);
                                    assert(src@.vars[i as int].dim_refs[p] == r as int);
                                }
                            };
                        }
                    },
                    None => {
                        proof {
                            assert(!has_name(
                                dim_names(dest@.dims),
                                src@.dims[src@.vars[i as int].dim_refs[k as int]].name,
                            ));
                            assert(!refs_resolvable(
                                src@.dims,
                                src@.vars[i as int].dim_refs,
                                dest@.dims,
                            ));
                        }
                        return;
                    },
                }
                k = k + 1;
            }
            proof {
                let srefs = src@.vars[i as int].dim_refs;
                assert forall|p: int|
                    0 <= p < srefs.len() implies 0 <= (#[trigger] srefs[p]) < src@.dims.len()
                    && has_name(dim_names(dest@.dims), src@.dims[srefs[p]].name) by {
                    assert(0 <= refs@[p] as int == find_name(
                        dim_names(old(dest)@.dims),
                        src@.dims[srefs[p]].name,
                    ));
                };
                assert(refs_resolvable(src@.dims, src@.vars[i as int].dim_refs, dest@.dims));
            }
            let vi = match dest.define_var(sv.name.clone(), sv.ty, refs) {
                Ok(vi) => vi,
                Err(_) => {
                    proof {
                        assert(false);
                    }
                    return;
                },
            };
            proof {
                assert(dest@.vars[vi as int].dim_refs =~= resolved_refs(
                    src@.dims,
                    src@.vars[i as int].dim_refs,
                    old(dest)@.dims,
                ));
                assert(dest@ =~= ContainerV {
                    vars: old(dest)@.vars.push(
                        VarV {
                            name: src@.vars[i as int].name,
                            ty: src@.vars[i as int].ty,
                            dim_refs: resolved_refs(
                                src@.dims,
                                src@.vars[i as int].dim_refs,
                                old(dest)@.dims,
                            ),
                            attrs: put_attrs_upto(
                                Seq::<AttrV>::empty(),
                                src@.vars[i as int].attrs,
                                0,
                            ),
                            chunking: None,
                            compression: None,
                            data: Seq::<u8>::empty(),
                        },
                    ),
                    ..old(dest)@
                });
            }
            let mut k2: usize = 0;
            while k2 < sv.attrs.len()
                invariant
                    k2 <= sv.attrs.len(),
                    old(dest)@.mode == Mode::Define,
                    i < src@.vars.len(),
                    sv@ == src@.vars[i as int],
                    vi as int == old(dest)@.vars.len(),
                    dest@ == (ContainerV {
                        vars: old(dest)@.vars.push(
                            (VarV {
                                name: src@.vars[i as int].name,
                                ty: src@.vars[i as int].ty,
                                dim_refs: resolved_refs(
                                    src@.dims,
                                    src@.vars[i as int].dim_refs,
                                    old(dest)@.dims,
                                ),
                                attrs: put_attrs_upto(
                                    Seq::<AttrV>::empty(),
                                    src@.vars[i as int].attrs,
                                    k2 as int,
                                ),
                                chunking: None,
                                compression: None,
                                data: Seq::<u8>::empty(),
                            }),
                        ),
                        ..old(dest)@
                    }),
                decreases sv.attrs.len() - k2,
            {
                dest.put_attr_var(vi, clone_attr(&sv.attrs[k2]));
                k2 = k2 + 1;
                proof {
                    assert(dest@ =~= ContainerV {
                        vars: old(dest)@.vars.push(
                            VarV {
                                name: src@.vars[i as int].name,
                                ty: src@.vars[i as int].ty,
                                dim_refs: resolved_refs(
                                    src@.dims,
                                    src@.vars[i as int].dim_refs,
                                    old(dest)@.dims,
                                ),
                                attrs: put_attrs_upto(
                                    Seq::<AttrV>::empty(),
                                    src@.vars[i as int].attrs,
                                    k2 as int,
                                ),
                                chunking: None,
                                compression: None,
                                data: Seq::<u8>::empty(),
                            },
                        ),
                        ..old(dest)@
                    });
                }
            }
            match &sv.chunking {
                Some(ch) => {
                    dest.set_chunking(vi, clone_chunking(ch));
                },
                None => {},
            }
            match sv.compression {
                Some(cp) => {
                    dest.set_compression(vi, cp);
                },
                None => {},
            }
            proof {
                assert(dest@.vars[vi as int] =~= new_var_of(
                    src@.vars[i as int],
                    src@.dims,
                    old(dest)@.dims,
                ));
                assert(dest@.vars =~= old(dest)@.vars.push(
                    new_var_of(src@.vars[i as int], src@.dims, old(dest)@.dims),
                ));
                assert(dest@ =~= merge_var_def(old(dest)@, src@, i as int));
            }
        },
    }
}

/// Copying variable definitions touches only the variable sequence.
pub proof fn lemma_merge_vars_upto_preserves(c: ContainerV, src: ContainerV, n: int)
    ensures
        merge_vars_upto(c, src, n).dims == c.dims,
        merge_vars_upto(c, src, n).gattrs == c.gattrs,
        merge_vars_upto(c, src, n).mode == c.mode,
        merge_vars_upto(c, src, n).format == c.format,
    decreases n,
{
    if n > 0 {
        lemma_merge_vars_upto_preserves(c, src, n - 1);
    }
}

/// Copy one source's whole schema onto `dest`: global attributes, then
/// dimensions, then variable definitions. Fails, with only the global
/// attributes written, if the dimensions cannot be copied.
pub fn merge_schema(dest: &mut Container, src: &Container) -> (r: Result<(), MergeError>)
    requires
        old(dest)@.mode == Mode::Define,
        at_most_one_unlimited(src@.dims),
    ensures
        match r {
            Ok(()) => !dims_conflict(old(dest)@.dims, src@.dims) && final(dest)@
                == merge_schema_spec(old(dest)@, src@),
            Err(e) => dims_conflict(old(dest)@.dims, src@.dims) && e
                == MergeError::DefinitionConflict && final(dest)@ == (ContainerV {
                gattrs: put_attrs(old(dest)@.gattrs, src@.gattrs),
                ..old(dest)@
            }),
        },
{
    merge_global_attrs(dest, src);
    let ghost c1 = dest@;
    match merge_dims(dest, src) {
        Err(e) => {
            return Err(e);
        },
        Ok(()) => {},
    }
    let ghost c2 = dest@;
    proof {
        assert(c2 =~= ContainerV {
            dims: merged_dims(c1.dims, src@.dims),
            gattrs: put_attrs(old(dest)@.gattrs, src@.gattrs),
            ..old(dest)@
        });
    }
    let mut i: usize = 0;
    while i < src.vars.len()
        invariant
            i <= src.vars.len(),
            dest@.mode == Mode::Define,
            dest@ == merge_vars_upto(c2, src@, i as int),
        decreases src.vars.len() - i,
    {
        merge_var_definitions(dest, src, i);
        i = i + 1;
    }
    proof {
        assert(dest@ == merge_vars_upto(c2, src@, src@.vars.len() as int));
        assert(dest@ == merge_schema_spec(old(dest)@, src@));
    }
    Ok(())
}

/// One step of [`bump_unlimited`]: processing reference `m` updates at most
/// the dimension it names.
proof fn lemma_bump_step(dims: Seq<DimV>, refs: Seq<int>, src_dims: Seq<DimV>, m: int)
    requires
        0 <= m < refs.len(),
    ensures
        ({
            let r = refs[m];
            bump_unlimited(dims, refs, src_dims, m + 1) == if 0 <= r < dims.len()
                && dims[r].unlimited && has_name(dim_names(src_dims), dims[r].name) {
                bump_unlimited(dims, refs, src_dims, m).update(
                    r,
                    (DimV {
                        len: src_dims[find_name(dim_names(src_dims), dims[r].name)].len,
                        ..dims[r]
                    }),
                )
            } else {
                bump_unlimited(dims, refs, src_dims, m)
            }
        }),
{
    let r = refs[m];
    assert(refs.take(m + 1) =~= refs.take(m).push(r));
    assert forall|y: int| #[trigger] refs.take(m + 1).contains(y) implies refs.take(m).contains(y)
        || y == r by {
        let p = choose|p: int| 0 <= p < refs.take(m + 1).len() && (#[trigger] refs.take(m + 1)[p]) == y;
        if p < m {
            assert(refs.take(m)[p] == y);
        }
    };
    assert forall|y: int| refs.take(m).contains(y) implies #[trigger] refs.take(m + 1).contains(
        y,
    ) by {
        let p = choose|p: int| 0 <= p < refs.take(m).len() && (#[trigger] refs.take(m)[p]) == y;
        assert(refs.take(m + 1)[p] == y);
    };
    assert(refs.take(m + 1)[m] == r);
    assert(refs.take(m + 1).contains(r));
    if 0 <= r < dims.len() && dims[r].unlimited && has_name(dim_names(src_dims), dims[r].name) {
        assert(bump_unlimited(dims, refs, src_dims, m + 1) =~= bump_unlimited(
            dims,
            refs,
            src_dims,
            m,
        ).update(
            r,
            DimV { len: src_dims[find_name(dim_names(src_dims), dims[r].name)].len, ..dims[r] },
        ));
    } else {
        assert(bump_unlimited(dims, refs, src_dims, m + 1) =~= bump_unlimited(
            dims,
            refs,
            src_dims,
            m,
        ));
    }
}

/// Copy the payload of source variable `i` onto the same-named destination
/// variable, if there is one, overwriting whatever it held; an unlimited
/// destination dimension the variable spans takes the extent of the
/// same-named source dimension.
pub fn merge_var_data(dest: &mut Container, src: &Container, i: usize)
    requires
        old(dest)@.mode == Mode::Data,
        i < src@.vars.len(),
    ensures
        final(dest)@ == copy_var_data_spec(old(dest)@, src@, i as int),
{
    let sv = &src.vars[i];
    match dest.find_var(&sv.name) {
        None => {},
        Some(j) => {
            proof {
                lemma_find_name(var_names(dest@.vars), src@.vars[i as int].name);
            }
            let ghost c0 = old(dest)@;
            let ghost refs = c0.vars[j as int].dim_refs;
            dest.put_var_data(j, copy_bytes(&sv.data));
            proof {
                assert(refs.take(0) =~= Seq::<int>::empty());
                assert(dest@.dims =~= bump_unlimited(c0.dims, refs, src@.dims, 0));
                assert(dest@ =~= ContainerV {
                    vars: c0.vars.update(
                        j as int,
                        VarV { data: src@.vars[i as int].data, ..c0.vars[j as int] },
                    ),
                    dims: bump_unlimited(c0.dims, refs, src@.dims, 0),
                    ..c0
                });
            }
            proof {
                assert(dest@.vars.len() == c0.vars.len());
                assert(j < dest.vars@.len());
                assert(dest@.vars[j as int].dim_refs == refs);
            }
            let mut m: usize = 0;
            let nrefs = dest.vars[j].dim_refs.len();
            proof {
                assert(nrefs == refs.len());
            }
            while m < nrefs
                invariant
                    nrefs == refs.len(),
                    c0.mode == Mode::Data,
                    i < src@.vars.len(),
                    sv@ == src@.vars[i as int],
                    0 <= j < c0.vars.len(),
                    j as int == find_name(var_names(c0.vars), src@.vars[i as int].name),
                    refs == c0.vars[j as int].dim_refs,
                    m <= refs.len(),
                    dest@ == (ContainerV {
                        vars: c0.vars.update(
                            j as int,
                            (VarV { data: src@.vars[i as int].data, ..c0.vars[j as int] }),
                        ),
                        dims: bump_unlimited(c0.dims, refs, src@.dims, m as int),
                        ..c0
                    }),
                decreases refs.len() - m,
            {
                proof {
                    assert(dest@.vars == c0.vars.update(
                        j as int,
                        VarV { data: src@.vars[i as int].data, ..c0.vars[j as int] },
                    ));
                    assert(dest@.vars.len() == c0.vars.len());
                    assert(j < dest.vars@.len());
                    assert(dest@.vars[j as int].dim_refs == refs);
                    assert(dest.vars@[j as int].dim_refs@.len() == refs.len());
                    assert(dest@.dims.len() == c0.dims.len());
                    assert(dest@.dims.len() == dest.dims@.len());
                    assert forall|k2: int| 0 <= k2 < c0.dims.len() implies (#[trigger] dest@.dims[
                        k2
                    ]).name == c0.dims[k2].name && dest@.dims[k2].unlimited
                        == c0.dims[k2].unlimited by {
                        assert(dest@.dims == bump_unlimited(c0.dims, refs, src@.dims, m as int));
                    };
                }
                let dk = dest.vars[j].dim_refs[m];
                proof {
                    assert(dk as int == refs[m as int]);
                    lemma_bump_step(c0.dims, refs, src@.dims, m as int);
                }
                if dk < dest.dims.len() {
                    if dest.dims[dk].unlimited {
                        match src.find_dim(&dest.dims[dk].name) {
                            Some(sj) => {
                                proof {
                                    lemma_find_name(
                                        dim_names(src@.dims),
                                        dest@.dims[dk as int].name,
                                    );
                                    assert(dest@.dims[dk as int].name
                                        == c0.dims[dk as int].name);
                                    assert(dest@.dims[dk as int].unlimited
                                        == c0.dims[dk as int].unlimited);
                                }
                                let newlen = src.dims[sj].len;
                                dest.set_unlimited_len(dk, newlen);
                            },
                            None => {
                                proof {
                                    assert(dest@.dims[dk as int].name
                                        == c0.dims[dk as int].name);
                                    assert(!has_name(
                                        dim_names(src@.dims),
                                        c0.dims[dk as int].name,
                                    ));
                                }
                            },
                        }
                    } else {
                        proof {
                            assert(dest@.dims[dk as int].unlimited == c0.dims[
                                dk as int
                            ].unlimited);
                            assert(!c0.dims[dk as int].unlimited);
                        }
                    }
                }
                m = m + 1;
                proof {
                    assert(dest@.dims =~= bump_unlimited(c0.dims, refs, src@.dims, m as int));
                    assert(dest@ =~= ContainerV {
                        vars: c0.vars.update(
                            j as int,
                            VarV { data: src@.vars[i as int].data, ..c0.vars[j as int] },
                        ),
                        dims: bump_unlimited(c0.dims, refs, src@.dims, m as int),
                        ..c0
                    });
                }
            }
            proof {
                assert(dest@ =~= copy_var_data_spec(c0, src@, i as int));
            }
        },
    }
}

/// Copy every source variable's payload, in order.
pub fn merge_data(dest: &mut Container, src: &Container)
    requires
        old(dest)@.mode == Mode::Data,
    ensures
        final(dest)@ == copy_data_spec(old(dest)@, src@),
{
    let mut i: usize = 0;
    while i < src.vars.len()
        invariant
            i <= src.vars.len(),
            dest@.mode == Mode::Data,
            dest@ == copy_data_upto(old(dest)@, src@, i as int),
        decreases src.vars.len() - i,
    {
        merge_var_data(dest, src, i);
        i = i + 1;
    }
}

/// Copying payloads touches only variables' payload buffers and the extents
/// of unlimited dimensions.
pub proof fn lemma_copy_data_upto_preserves(c: ContainerV, src: ContainerV, n: int)
    ensures
        copy_data_upto(c, src, n).mode == c.mode,
        copy_data_upto(c, src, n).format == c.format,
        copy_data_upto(c, src, n).gattrs == c.gattrs,
    decreases n,
{
    if n > 0 {
        lemma_copy_data_upto_preserves(c, src, n - 1);
    }
}

/// A merged container, along with whether the two inputs declared different
/// storage formats (reported, never fatal).
pub struct MergeOutcome {
    pub container: Container,
    pub format_mismatch: bool,
}

/// Merge two containers: A's schema, then B's (definitions copied by name,
/// never overwriting; attribute values overwriting), then A's payloads, then
/// B's (overwriting), into a fresh destination of A's format. Fails only when
/// the two sources would together need two unlimited dimensions.
pub fn merge_containers(a: &Container, b: &Container) -> (r: Result<MergeOutcome, MergeError>)
    requires
        at_most_one_unlimited(a@.dims),
        at_most_one_unlimited(b@.dims),
    ensures
        match r {
            Ok(out) => spec_merge_ok(a@, b@) && out.container@ == spec_merge(a@, b@)
                && out.format_mismatch == (a@.format != b@.format),
            Err(e) => !spec_merge_ok(a@, b@) && e == MergeError::DefinitionConflict,
        },
{
    let mut dest = Container::new(a.format);
    proof {
        assert(dest@ =~= empty_container(a@.format));
    }
    match merge_schema(&mut dest, a) {
        Err(e) => {
            proof {
                assert(false);
            }
            return Err(e);
        },
        Ok(()) => {},
    }
    let ghost c1 = dest@;
    proof {
        assert(c1 == merge_schema_spec(empty_container(a@.format), a@));
        lemma_merge_vars_upto_preserves(
            ContainerV {
                dims: merged_dims(Seq::<DimV>::empty(), a@.dims),
                gattrs: put_attrs(Seq::<AttrV>::empty(), a@.gattrs),
                ..empty_container(a@.format)
            },
            a@,
            a@.vars.len() as int,
        );
        assert(c1.dims == merged_dims(Seq::<DimV>::empty(), a@.dims));
        assert(c1.mode == Mode::Define);
    }
    match merge_schema(&mut dest, b) {
        Err(e) => {
            proof {
                assert(dims_conflict(merged_dims(Seq::<DimV>::empty(), a@.dims), b@.dims));
            }
            return Err(e);
        },
        Ok(()) => {},
    }
    let ghost c2 = dest@;
    proof {
        assert(c2 == merge_schema_spec(merge_schema_spec(empty_container(a@.format), a@), b@));
        lemma_merge_vars_upto_preserves(
            ContainerV {
                dims: merged_dims(c1.dims, b@.dims),
                gattrs: put_attrs(c1.gattrs, b@.gattrs),
                ..c1
            },
            b@,
            b@.vars.len() as int,
        );
        assert(c2.mode == Mode::Define);
    }
    dest.enddef();
    let ghost c3 = dest@;
    proof {
        assert(c3 =~= ContainerV { mode: Mode::Data, ..c2 });
    }
    merge_data(&mut dest, a);
    let ghost c4 = dest@;
    proof {
        assert(c4 == copy_data_spec(c3, a@));
        lemma_copy_data_upto_preserves(c3, a@, a@.vars.len() as int);
        assert(c4.mode == Mode::Data);
    }
    merge_data(&mut dest, b);
    proof {
        assert(dest@ == spec_merge(a@, b@));
    }
    let format_mismatch = if a.format != b.format {
        true
    } else {
        false
    };
    Ok(MergeOutcome { container: dest, format_mismatch })
}

} // verus!
