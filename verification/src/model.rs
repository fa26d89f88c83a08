//! In-memory model of a scientific-array container: dimensions, variables,
//! attributes, chunking and compression descriptors, and the two-phase
//! define/data protocol that the container format family imposes.

use crate::errors::MergeError;
use vstd::pervasive::VecAdditionalExecFns;
use vstd::prelude::*;

verus! {

/// Storage format of a container.
#[derive(Clone, Copy, PartialEq, Eq, Structural, Debug)]
pub enum Format {
    Classic,
    Offset64,
    Cdf5,
    Enhanced,
    EnhancedClassic,
}

/// Phase of a writable container: all definitions precede all payload writes.
#[derive(Clone, Copy, PartialEq, Eq, Structural, Debug)]
pub enum Mode {
    Define,
    Data,
}

/// Element type of a variable or attribute; attributes and payloads are
/// homogeneous arrays of one of these.
#[derive(Clone, Copy, PartialEq, Eq, Structural, Debug)]
pub enum ElemType {
    Byte,
    UByte,
    Short,
    UShort,
    Int,
    UInt,
    Int64,
    UInt64,
    Float,
    Double,
    Char,
}

/// Size in bytes of one element of the given type.
pub open spec fn elem_size(t: ElemType) -> nat {
    match t {
        ElemType::Byte => 1,
        ElemType::UByte => 1,
        ElemType::Short => 2,
        ElemType::UShort => 2,
        ElemType::Int => 4,
        ElemType::UInt => 4,
        ElemType::Int64 => 8,
        ElemType::UInt64 => 8,
        ElemType::Float => 4,
        ElemType::Double => 8,
        ElemType::Char => 1,
    }
}

impl ElemType {
    /// Executable counterpart of [`elem_size`].
    pub fn size_bytes(&self) -> (n: usize)
        ensures
            n == elem_size(*self),
    {
        match self {
            ElemType::Byte => 1,
            ElemType::UByte => 1,
            ElemType::Short => 2,
            ElemType::UShort => 2,
            ElemType::Int => 4,
            ElemType::UInt => 4,
            ElemType::Int64 => 8,
            ElemType::UInt64 => 8,
            ElemType::Float => 4,
            ElemType::Double => 8,
            ElemType::Char => 1,
        }
    }
}

/// A named axis with a length; an unlimited axis reports its current extent.
pub struct Dim {
    pub name: String,
    pub len: usize,
    pub unlimited: bool,
}

/// Mathematical image of a [`Dim`].
#[verifier::ext_equal]
pub struct DimV {
    pub name: Seq<char>,
    pub len: nat,
    pub unlimited: bool,
}

impl View for Dim {
    type V = DimV;

    open spec fn view(&self) -> DimV {
        DimV { name: self.name@, len: self.len as nat, unlimited: self.unlimited }
    }
}

/// A named attribute: a homogeneous array of `nelems` elements of type `ty`,
/// held as raw bytes.
pub struct Attr {
    pub name: String,
    pub ty: ElemType,
    pub nelems: usize,
    pub bytes: Vec<u8>,
}

/// Mathematical image of an [`Attr`].
#[verifier::ext_equal]
pub struct AttrV {
    pub name: Seq<char>,
    pub ty: ElemType,
    pub nelems: nat,
    pub bytes: Seq<u8>,
}

impl View for Attr {
    type V = AttrV;

    open spec fn view(&self) -> AttrV {
        AttrV {
            name: self.name@,
            ty: self.ty,
            nelems: self.nelems as nat,
            bytes: self.bytes@,
        }
    }
}

/// Storage layout of a variable: contiguous, or chunked with one chunk extent
/// per referenced dimension.
pub struct Chunking {
    pub contiguous: bool,
    pub shape: Vec<usize>,
}

/// Mathematical image of a [`Chunking`].
#[verifier::ext_equal]
pub struct ChunkingV {
    pub contiguous: bool,
    pub shape: Seq<nat>,
}

impl View for Chunking {
    type V = ChunkingV;

    open spec fn view(&self) -> ChunkingV {
        ChunkingV { contiguous: self.contiguous, shape: self.shape@.map_values(|x: usize| x as nat) }
    }
}

/// Compression descriptor of a variable.
#[derive(Clone, Copy, PartialEq, Eq, Structural, Debug)]
pub struct Compression {
    pub shuffle: bool,
    pub deflate: bool,
    pub level: u8,
}

/// A typed multi-dimensional array: its dimensions are given as indices into
/// the owning container's dimension sequence, outermost first.
pub struct Variable {
    pub name: String,
    pub ty: ElemType,
    pub dim_refs: Vec<usize>,
    pub attrs: Vec<Attr>,
    pub chunking: Option<Chunking>,
    pub compression: Option<Compression>,
    pub data: Vec<u8>,
}

/// Mathematical image of a [`Variable`].
#[verifier::ext_equal]
pub struct VarV {
    pub name: Seq<char>,
    pub ty: ElemType,
    pub dim_refs: Seq<int>,
    pub attrs: Seq<AttrV>,
    pub chunking: Option<ChunkingV>,
    pub compression: Option<Compression>,
    pub data: Seq<u8>,
}

impl View for Variable {
    type V = VarV;

    open spec fn view(&self) -> VarV {
        VarV {
            name: self.name@,
            ty: self.ty,
            dim_refs: self.dim_refs@.map_values(|x: usize| x as int),
            attrs: attr_views(self.attrs@),
            chunking: match self.chunking {
                Some(c) => Some(c@),
                None => None,
            },
            compression: self.compression,
            data: self.data@,
        }
    }
}

/// One self-describing container: schema plus payload data.
pub struct Container {
    pub format: Format,
    pub mode: Mode,
    pub dims: Vec<Dim>,
    pub vars: Vec<Variable>,
    pub gattrs: Vec<Attr>,
}

/// Mathematical image of a [`Container`].
#[verifier::ext_equal]
pub struct ContainerV {
    pub format: Format,
    pub mode: Mode,
    pub dims: Seq<DimV>,
    pub vars: Seq<VarV>,
    pub gattrs: Seq<AttrV>,
}

pub open spec fn dim_views(s: Seq<Dim>) -> Seq<DimV> {
    s.map_values(|d: Dim| d@)
}

pub open spec fn attr_views(s: Seq<Attr>) -> Seq<AttrV> {
    s.map_values(|a: Attr| a@)
}

pub open spec fn var_views(s: Seq<Variable>) -> Seq<VarV> {
    s.map_values(|v: Variable| v@)
}

impl View for Container {
    type V = ContainerV;

    open spec fn view(&self) -> ContainerV {
        ContainerV {
            format: self.format,
            mode: self.mode,
            dims: dim_views(self.dims@),
            vars: var_views(self.vars@),
            gattrs: attr_views(self.gattrs@),
        }
    }
}

// ---------------------------------------------------------------------------
// Name lookup
// ---------------------------------------------------------------------------

pub open spec fn dim_names(dims: Seq<DimV>) -> Seq<Seq<char>> {
    dims.map_values(|d: DimV| d.name)
}

pub open spec fn var_names(vars: Seq<VarV>) -> Seq<Seq<char>> {
    vars.map_values(|v: VarV| v.name)
}

pub open spec fn attr_names(attrs: Seq<AttrV>) -> Seq<Seq<char>> {
    attrs.map_values(|a: AttrV| a.name)
}

/// Index of the first occurrence of `name` in `names` at or after `i`, or -1.
pub open spec fn find_name_from(names: Seq<Seq<char>>, name: Seq<char>, i: int) -> int
    decreases names.len() - i,
{
    if i < 0 || i >= names.len() {
        -1
    } else if names[i] == name {
        i
    } else {
        find_name_from(names, name, i + 1)
    }
}

/// Index of the first occurrence of `name` in `names`, or -1.
pub open spec fn find_name(names: Seq<Seq<char>>, name: Seq<char>) -> int {
    find_name_from(names, name, 0)
}

pub open spec fn has_name(names: Seq<Seq<char>>, name: Seq<char>) -> bool {
    find_name(names, name) != -1
}

pub open spec fn unique_names(names: Seq<Seq<char>>) -> bool {
    forall|i: int, j: int| 0 <= i < j < names.len() ==> names[i] != names[j]
}

/// Number of occurrences of `name` in `names` at or after `i`.
pub open spec fn count_name_from(names: Seq<Seq<char>>, name: Seq<char>, i: int) -> nat
    decreases names.len() - i,
{
    if i < 0 || i >= names.len() {
        0
    } else if names[i] == name {
        1 + count_name_from(names, name, i + 1)
    } else {
        count_name_from(names, name, i + 1)
    }
}

pub open spec fn count_name(names: Seq<Seq<char>>, name: Seq<char>) -> nat {
    count_name_from(names, name, 0)
}

/// What `find_name_from` finds: the first matching index, and nothing earlier.
pub proof fn lemma_find_name_from(names: Seq<Seq<char>>, name: Seq<char>, i: int)
    requires
        0 <= i <= names.len(),
    ensures
        ({
            let r = find_name_from(names, name, i);
            &&& (r == -1 ==> forall|j: int| i <= j < names.len() ==> names[j] != name)
            &&& (r != -1 ==> i <= r < names.len() && names[r] == name && (forall|j: int|
                i <= j < r ==> names[j] != name))
        }),
    decreases names.len() - i,
{
    if i < names.len() && names[i] != name {
        lemma_find_name_from(names, name, i + 1);
    }
}

/// What `find_name` finds.
pub proof fn lemma_find_name(names: Seq<Seq<char>>, name: Seq<char>)
    ensures
        ({
            let r = find_name(names, name);
            &&& (r == -1 ==> forall|j: int| 0 <= j < names.len() ==> names[j] != name)
            &&& (r != -1 ==> 0 <= r < names.len() && names[r] == name && (forall|j: int|
                0 <= j < r ==> names[j] != name))
        }),
{
    lemma_find_name_from(names, name, 0);
}

/// In a sequence of pairwise distinct names, looking a name up by value
/// recovers its index.
pub proof fn lemma_find_name_unique(names: Seq<Seq<char>>, r: int)
    requires
        unique_names(names),
        0 <= r < names.len(),
    ensures
        find_name(names, names[r]) == r,
{
    lemma_find_name(names, names[r]);
    let f = find_name(names, names[r]);
    if f == -1 {
        assert(names[r] != names[r]);
    } else if f < r {
        assert(names[f] == names[r]);
    } else if f > r {
        assert(names[r] != names[f]);
    }
}

/// A name that occurs exactly once in a duplicate-free sequence.
pub proof fn lemma_count_name_from_unique(names: Seq<Seq<char>>, name: Seq<char>, i: int)
    requires
        unique_names(names),
        0 <= i <= names.len(),
    ensures
        count_name_from(names, name, i) == if find_name_from(names, name, i) == -1 {
            0int
        } else {
            1int
        },
    decreases names.len() - i,
{
    if i < names.len() {
        lemma_count_name_from_unique(names, name, i + 1);
        if names[i] == name {
            lemma_find_name_from(names, name, i + 1);
            if find_name_from(names, name, i + 1) != -1 {
                let r = find_name_from(names, name, i + 1);
                assert(names[i] == names[r]);
            }
        }
    }
}

proof fn lemma_find_name_from_push(names: Seq<Seq<char>>, n0: Seq<char>, name: Seq<char>, i: int)
    requires
        0 <= i <= names.len(),
    ensures
        find_name_from(names.push(n0), name, i) == if find_name_from(names, name, i) != -1 {
            find_name_from(names, name, i)
        } else if name == n0 {
            names.len() as int
        } else {
            -1
        },
    decreases names.len() - i,
{
    if i == names.len() {
        assert(names.push(n0)[i] == n0);
        assert(find_name_from(names.push(n0), name, i + 1) == -1);
        assert(find_name_from(names, name, i) == -1);
    } else {
        assert(names.push(n0)[i] == names[i]);
        if names[i] != name {
            lemma_find_name_from_push(names, n0, name, i + 1);
        }
    }
}

/// Looking a name up after appending one more name.
pub broadcast proof fn lemma_find_name_push(names: Seq<Seq<char>>, n0: Seq<char>, name: Seq<char>)
    ensures
        #[trigger] find_name(names.push(n0), name) == if has_name(names, name) {
            find_name(names, name)
        } else if name == n0 {
            names.len() as int
        } else {
            -1
        },
{
    lemma_find_name_from_push(names, n0, name, 0);
}

/// Replacing an entry by one of the same name leaves every lookup unchanged.
pub broadcast proof fn lemma_find_name_update(
    names: Seq<Seq<char>>,
    i: int,
    n0: Seq<char>,
    name: Seq<char>,
)
    requires
        0 <= i < names.len(),
        names[i] == n0,
    ensures
        #[trigger] find_name(names.update(i, n0), name) == find_name(names, name),
{
    assert(names.update(i, n0) =~= names);
}

pub broadcast proof fn lemma_dim_names_push(dims: Seq<DimV>, d: DimV)
    ensures
        #[trigger] dim_names(dims.push(d)) == dim_names(dims).push(d.name),
{
    assert(dim_names(dims.push(d)) =~= dim_names(dims).push(d.name));
}

pub broadcast proof fn lemma_dim_names_update(dims: Seq<DimV>, i: int, d: DimV)
    requires
        0 <= i < dims.len(),
    ensures
        #[trigger] dim_names(dims.update(i, d)) == dim_names(dims).update(i, d.name),
{
    assert(dim_names(dims.update(i, d)) =~= dim_names(dims).update(i, d.name));
}

pub broadcast proof fn lemma_var_names_push(vars: Seq<VarV>, v: VarV)
    ensures
        #[trigger] var_names(vars.push(v)) == var_names(vars).push(v.name),
{
    assert(var_names(vars.push(v)) =~= var_names(vars).push(v.name));
}

pub broadcast proof fn lemma_var_names_update(vars: Seq<VarV>, i: int, v: VarV)
    requires
        0 <= i < vars.len(),
    ensures
        #[trigger] var_names(vars.update(i, v)) == var_names(vars).update(i, v.name),
{
    assert(var_names(vars.update(i, v)) =~= var_names(vars).update(i, v.name));
}

pub broadcast proof fn lemma_attr_names_push(attrs: Seq<AttrV>, a: AttrV)
    ensures
        #[trigger] attr_names(attrs.push(a)) == attr_names(attrs).push(a.name),
{
    assert(attr_names(attrs.push(a)) =~= attr_names(attrs).push(a.name));
}

pub broadcast proof fn lemma_attr_names_update(attrs: Seq<AttrV>, i: int, a: AttrV)
    requires
        0 <= i < attrs.len(),
    ensures
        #[trigger] attr_names(attrs.update(i, a)) == attr_names(attrs).update(i, a.name),
{
    assert(attr_names(attrs.update(i, a)) =~= attr_names(attrs).update(i, a.name));
}

// ---------------------------------------------------------------------------
// Well-formedness
// ---------------------------------------------------------------------------

/// At most one axis of a container may be unlimited.
pub open spec fn at_most_one_unlimited(dims: Seq<DimV>) -> bool {
    forall|i: int, j: int|
        0 <= i < j < dims.len() && dims[i].unlimited ==> !dims[j].unlimited
}

pub open spec fn has_unlimited(dims: Seq<DimV>) -> bool {
    exists|i: int| 0 <= i < dims.len() && dims[i].unlimited
}

pub open spec fn wf_dims(dims: Seq<DimV>) -> bool {
    unique_names(dim_names(dims)) && at_most_one_unlimited(dims)
}

/// Attribute sequences act as ordered name-to-value mappings, and each value's
/// byte buffer matches its declared element count and type.
pub open spec fn wf_attrs(attrs: Seq<AttrV>) -> bool {
    &&& unique_names(attr_names(attrs))
    &&& forall|i: int|
        0 <= i < attrs.len() ==> (#[trigger] attrs[i]).bytes.len() == attrs[i].nelems * elem_size(
            attrs[i].ty,
        )
}

/// Product of the lengths of the referenced dimensions.
pub open spec fn shape_prod(dims: Seq<DimV>, refs: Seq<int>) -> nat
    decreases refs.len(),
{
    if refs.len() == 0 {
        1
    } else {
        let head: nat = if 0 <= refs[0] < dims.len() {
            dims[refs[0]].len
        } else {
            0
        };
        head * shape_prod(dims, refs.drop_first())
    }
}

/// A variable is well formed against its container's dimensions: every
/// dimension reference resolves, attributes form a mapping, and a chunk shape
/// parallels the dimension references.
pub open spec fn wf_var(v: VarV, dims: Seq<DimV>) -> bool {
    &&& forall|k: int| 0 <= k < v.dim_refs.len() ==> 0 <= #[trigger] v.dim_refs[k] < dims.len()
    &&& wf_attrs(v.attrs)
    &&& (v.chunking matches Some(c) ==> c.shape.len() == v.dim_refs.len())
    &&& (v.compression matches Some(c) ==> c.level <= 9)
}

/// Container invariants: unique dimension and variable names, at most one
/// unlimited dimension, resolvable dimension references, and payload buffers
/// sized by the resolved shape (empty while still in define mode).
pub open spec fn wf_container(c: ContainerV) -> bool {
    &&& wf_dims(c.dims)
    &&& wf_attrs(c.gattrs)
    &&& unique_names(var_names(c.vars))
    &&& forall|i: int| 0 <= i < c.vars.len() ==> wf_var(#[trigger] c.vars[i], c.dims)
    &&& (c.mode == Mode::Define ==> forall|i: int|
        0 <= i < c.vars.len() ==> (#[trigger] c.vars[i]).data.len() == 0)
    &&& (c.mode == Mode::Data ==> forall|i: int|
        0 <= i < c.vars.len() ==> (#[trigger] c.vars[i]).data.len() == elem_size(c.vars[i].ty)
            * shape_prod(c.dims, c.vars[i].dim_refs))
}

// ---------------------------------------------------------------------------
// Attribute maps
// ---------------------------------------------------------------------------

/// Writing an attribute: overwrite the same-named attribute in place, or
/// append a new one.
pub open spec fn put_attr(attrs: Seq<AttrV>, a: AttrV) -> Seq<AttrV> {
    let i = find_name(attr_names(attrs), a.name);
    if i == -1 {
        attrs.push(a)
    } else {
        attrs.update(i, a)
    }
}

// ---------------------------------------------------------------------------
// Deep copies with known meaning
// ---------------------------------------------------------------------------

/// Byte-for-byte copy of a buffer.
pub fn copy_bytes(src: &Vec<u8>) -> (r: Vec<u8>)
    ensures
        r@ == src@,
{
    let mut r: Vec<u8> = Vec::new();
    let mut i: usize = 0;
    while i < src.len()
        invariant
            i <= src.len(),
            r@ == src@.subrange(0, i as int),
        decreases src.len() - i,
    {
        r.push(src[i]);
        i = i + 1;
        proof {
            assert(r@ =~= src@.subrange(0, i as int));
        }
    }
    proof {
        assert(r@ =~= src@);
    }
    r
}

/// Element-for-element copy of an index list.
pub fn copy_indices(src: &Vec<usize>) -> (r: Vec<usize>)
    ensures
        r@ == src@,
{
    let mut r: Vec<usize> = Vec::new();
    let mut i: usize = 0;
    while i < src.len()
        invariant
            i <= src.len(),
            r@ == src@.subrange(0, i as int),
        decreases src.len() - i,
    {
        r.push(src[i]);
        i = i + 1;
        proof {
            assert(r@ =~= src@.subrange(0, i as int));
        }
    }
    proof {
        assert(r@ =~= src@);
    }
    r
}

/// Copy of an attribute, equal to the original in the model.
pub fn clone_attr(a: &Attr) -> (r: Attr)
    ensures
        r@ == a@,
{
    Attr { name: a.name.clone(), ty: a.ty, nelems: a.nelems, bytes: copy_bytes(&a.bytes) }
}

/// Copy of a chunking descriptor, equal to the original in the model.
pub fn clone_chunking(c: &Chunking) -> (r: Chunking)
    ensures
        r@ == c@,
{
    let r = Chunking { contiguous: c.contiguous, shape: copy_indices(&c.shape) };
    proof {
        assert(r@.shape =~= c@.shape);
    }
    r
}

/// First attribute with the given name, if any.
pub fn find_attr(attrs: &Vec<Attr>, name: &String) -> (r: Option<usize>)
    ensures
        match r {
            Some(i) => i as int == find_name(attr_names(attr_views(attrs@)), name@),
            None => find_name(attr_names(attr_views(attrs@)), name@) == -1,
        },
{
    let ghost names = attr_names(attr_views(attrs@));
    let mut i: usize = 0;
    while i < attrs.len()
        invariant
            i <= attrs.len(),
            find_name(attr_names(attr_views(attrs@)), name@) == find_name_from(
                attr_names(attr_views(attrs@)),
                name@,
                i as int,
            ),
        decreases attrs.len() - i,
    {
        if attrs[i].name == *name {
            return Some(i);
        }
        i = i + 1;
    }
    None
}

/// Write one attribute into an attribute list, by name.
pub fn attr_put(attrs: &mut Vec<Attr>, attr: Attr)
    ensures
        attr_views(final(attrs)@) == put_attr(attr_views(old(attrs)@), attr@),
{
    let found = find_attr(attrs, &attr.name);
    proof {
        lemma_find_name(attr_names(attr_views(attrs@)), attr@.name);
    }
    match found {
        Some(i) => {
            attrs.set(i, attr);
            proof {
                assert(attr_views(attrs@) =~= put_attr(attr_views(old(attrs)@), attr@));
            }
        },
        None => {
            attrs.push(attr);
            proof {
                assert(attr_views(attrs@) =~= put_attr(attr_views(old(attrs)@), attr@));
            }
        },
    }
}

// ---------------------------------------------------------------------------
// Container operations
// ---------------------------------------------------------------------------

impl Container {
    /// Fresh container in define mode with no definitions.
    pub fn new(format: Format) -> (c: Container)
        ensures
            c@.format == format,
            c@.mode == Mode::Define,
            c@.dims == Seq::<DimV>::empty(),
            c@.vars == Seq::<VarV>::empty(),
            c@.gattrs == Seq::<AttrV>::empty(),
            wf_container(c@),
    {
        let c = Container {
            format,
            mode: Mode::Define,
            dims: Vec::new(),
            vars: Vec::new(),
            gattrs: Vec::new(),
        };
        proof {
            assert(c@.dims =~= Seq::<DimV>::empty());
            assert(c@.vars =~= Seq::<VarV>::empty());
            assert(c@.gattrs =~= Seq::<AttrV>::empty());
        }
        c
    }

    /// First dimension with the given name, if any.
    pub fn find_dim(&self, name: &String) -> (r: Option<usize>)
        ensures
            match r {
                Some(i) => i as int == find_name(dim_names(self@.dims), name@),
                None => find_name(dim_names(self@.dims), name@) == -1,
            },
    {
        let mut i: usize = 0;
        while i < self.dims.len()
            invariant
                i <= self.dims.len(),
                find_name(dim_names(self@.dims), name@) == find_name_from(
                    dim_names(self@.dims),
                    name@,
                    i as int,
                ),
            decreases self.dims.len() - i,
        {
            if self.dims[i].name == *name {
                return Some(i);
            }
            i = i + 1;
        }
        None
    }

    /// First variable with the given name, if any.
    pub fn find_var(&self, name: &String) -> (r: Option<usize>)
        ensures
            match r {
                Some(i) => i as int == find_name(var_names(self@.vars), name@),
                None => find_name(var_names(self@.vars), name@) == -1,
            },
    {
        let mut i: usize = 0;
        while i < self.vars.len()
            invariant
                i <= self.vars.len(),
                find_name(var_names(self@.vars), name@) == find_name_from(
                    var_names(self@.vars),
                    name@,
                    i as int,
                ),
            decreases self.vars.len() - i,
        {
            if self.vars[i].name == *name {
                return Some(i);
            }
            i = i + 1;
        }
        None
    }

    /// Whether some dimension is unlimited.
    pub fn has_unlimited_dim(&self) -> (r: bool)
        ensures
            r == has_unlimited(self@.dims),
    {
        let mut i: usize = 0;
        while i < self.dims.len()
            invariant
                i <= self.dims.len(),
                forall|j: int| 0 <= j < i ==> !self@.dims[j].unlimited,
            decreases self.dims.len() - i,
        {
            if self.dims[i].unlimited {
                proof {
                    assert(0 <= i < self@.dims.len() && self@.dims[i as int].unlimited);
                }
                return true;
            }
            i = i + 1;
        }
        false
    }

    /// Define a dimension. Only legal in define mode; a taken name, or a
    /// second unlimited dimension, is refused.
    pub fn define_dim(&mut self, name: String, len: usize, unlimited: bool) -> (r: Result<
        usize,
        MergeError,
    >)
        requires
            old(self)@.mode == Mode::Define,
        ensures
            match r {
                Ok(i) => !has_name(dim_names(old(self)@.dims), name@) && (unlimited
                    ==> !has_unlimited(old(self)@.dims)) && i == old(self)@.dims.len()
                    && final(self)@.dims == old(self)@.dims.push(
                    (DimV { name: name@, len: len as nat, unlimited }),
                ),
                Err(e) => (has_name(dim_names(old(self)@.dims), name@) || (unlimited
                    && has_unlimited(old(self)@.dims))) && e == MergeError::DefinitionConflict
                    && final(self)@.dims == old(self)@.dims,
            },
            final(self)@.vars == old(self)@.vars,
            final(self)@.gattrs == old(self)@.gattrs,
            final(self)@.mode == old(self)@.mode,
            final(self)@.format == old(self)@.format,
    {
        proof {
            lemma_find_name(dim_names(self@.dims), name@);
        }
        if self.find_dim(&name).is_some() {
            return Err(MergeError::DefinitionConflict);
        }
        if unlimited && self.has_unlimited_dim() {
            return Err(MergeError::DefinitionConflict);
        }
        let i = self.dims.len();
        let ghost dv = DimV { name: name@, len: len as nat, unlimited };
        self.dims.push(Dim { name, len, unlimited });
        proof {
            assert(self@.dims =~= old(self)@.dims.push(dv));
        }
        Ok(i)
    }

    /// Define a variable over already defined dimensions, given by index.
    /// The new variable starts with no attributes, no layout descriptors and
    /// an empty payload. A taken name, or a dimension reference that does
    /// not resolve, is refused.
    pub fn define_var(&mut self, name: String, ty: ElemType, dim_refs: Vec<usize>) -> (r: Result<
        usize,
        MergeError,
    >)
        requires
            old(self)@.mode == Mode::Define,
        ensures
            match r {
                Ok(i) => !has_name(var_names(old(self)@.vars), name@) && (forall|k: int|
                    0 <= k < dim_refs@.len() ==> #[trigger] dim_refs@[k] < old(self)@.dims.len())
                    && i == old(self)@.vars.len() && final(self)@.vars == old(self)@.vars.push(
                    (VarV {
                        name: name@,
                        ty,
                        dim_refs: dim_refs@.map_values(|x: usize| x as int),
                        attrs: Seq::<AttrV>::empty(),
                        chunking: None,
                        compression: None,
                        data: Seq::<u8>::empty(),
                    }),
                ),
                Err(e) => (has_name(var_names(old(self)@.vars), name@) || exists|k: int|
                    0 <= k < dim_refs@.len() && #[trigger] dim_refs@[k] >= old(self)@.dims.len())
                    && e == MergeError::DefinitionConflict && final(self)@.vars == old(
                    self,
                )@.vars,
            },
            final(self)@.dims == old(self)@.dims,
            final(self)@.gattrs == old(self)@.gattrs,
            final(self)@.mode == old(self)@.mode,
            final(self)@.format == old(self)@.format,
    {
        proof {
            lemma_find_name(var_names(self@.vars), name@);
        }
        if self.find_var(&name).is_some() {
            return Err(MergeError::DefinitionConflict);
        }
        let mut k: usize = 0;
        while k < dim_refs.len()
            invariant
                k <= dim_refs.len(),
                forall|p: int| 0 <= p < k ==> #[trigger] dim_refs@[p] < self@.dims.len(),
                self@ == old(self)@,
            decreases dim_refs.len() - k,
        {
            if dim_refs[k] >= self.dims.len() {
                return Err(MergeError::DefinitionConflict);
            }
            k = k + 1;
        }
        let i = self.vars.len();
        let ghost vv = VarV {
            name: name@,
            ty,
            dim_refs: dim_refs@.map_values(|x: usize| x as int),
            attrs: Seq::<AttrV>::empty(),
            chunking: None,
            compression: None,
            data: Seq::<u8>::empty(),
        };
        self.vars.push(
            Variable {
                name,
                ty,
                dim_refs,
                attrs: Vec::new(),
                chunking: None,
                compression: None,
                data: Vec::new(),
            },
        );
        proof {
            assert(self@.vars[i as int].attrs =~= vv.attrs);
            assert(self@.vars[i as int].data =~= vv.data);
            assert(self@.vars[i as int] =~= vv);
            assert(self@.vars =~= old(self)@.vars.push(vv));
        }
        Ok(i)
    }

    /// Write a global attribute, overwriting a same-named one.
    pub fn put_attr_global(&mut self, attr: Attr)
        requires
            old(self)@.mode == Mode::Define,
        ensures
            final(self)@.gattrs == put_attr(old(self)@.gattrs, attr@),
            final(self)@.dims == old(self)@.dims,
            final(self)@.vars == old(self)@.vars,
            final(self)@.mode == old(self)@.mode,
            final(self)@.format == old(self)@.format,
    {
        attr_put(&mut self.gattrs, attr);
    }

    /// Write an attribute of the variable at index `j`, overwriting a
    /// same-named one.
    pub fn put_attr_var(&mut self, j: usize, attr: Attr)
        requires
            old(self)@.mode == Mode::Define,
            j < old(self)@.vars.len(),
        ensures
            final(self)@.vars == old(self)@.vars.update(
                j as int,
                (VarV { attrs: put_attr(old(self)@.vars[j as int].attrs, attr@), ..old(
                    self,
                )@.vars[j as int] }),
            ),
            final(self)@.dims == old(self)@.dims,
            final(self)@.gattrs == old(self)@.gattrs,
            final(self)@.mode == old(self)@.mode,
            final(self)@.format == old(self)@.format,
    {
        attr_put(&mut self.vars[j].attrs, attr);
        proof {
            assert(self@.vars =~= old(self)@.vars.update(
                j as int,
                VarV { attrs: put_attr(old(self)@.vars[j as int].attrs, attr@), ..old(
                    self,
                )@.vars[j as int] },
            ));
        }
    }

    /// Record the chunking layout of the variable at index `j`.
    pub fn set_chunking(&mut self, j: usize, ch: Chunking)
        requires
            old(self)@.mode == Mode::Define,
            j < old(self)@.vars.len(),
        ensures
            final(self)@.vars == old(self)@.vars.update(
                j as int,
                (VarV { chunking: Some(ch@), ..old(self)@.vars[j as int] }),
            ),
            final(self)@.dims == old(self)@.dims,
            final(self)@.gattrs == old(self)@.gattrs,
            final(self)@.mode == old(self)@.mode,
            final(self)@.format == old(self)@.format,
    {
        let v = &mut self.vars[j];
        v.chunking = Some(ch);
        proof {
            assert(self@.vars =~= old(self)@.vars.update(
                j as int,
                VarV { chunking: Some(ch@), ..old(self)@.vars[j as int] },
            ));
        }
    }

    /// Record the compression settings of the variable at index `j`.
    pub fn set_compression(&mut self, j: usize, cp: Compression)
        requires
            old(self)@.mode == Mode::Define,
            j < old(self)@.vars.len(),
        ensures
            final(self)@.vars == old(self)@.vars.update(
                j as int,
                (VarV { compression: Some(cp), ..old(self)@.vars[j as int] }),
            ),
            final(self)@.dims == old(self)@.dims,
            final(self)@.gattrs == old(self)@.gattrs,
            final(self)@.mode == old(self)@.mode,
            final(self)@.format == old(self)@.format,
    {
        let v = &mut self.vars[j];
        v.compression = Some(cp);
        proof {
            assert(self@.vars =~= old(self)@.vars.update(
                j as int,
                VarV { compression: Some(cp), ..old(self)@.vars[j as int] },
            ));
        }
    }

    /// Leave define mode. Definitions are frozen from here on; only payloads
    /// (and the current extent of an unlimited dimension) may change.
    pub fn enddef(&mut self)
        requires
            old(self)@.mode == Mode::Define,
        ensures
            final(self)@.mode == Mode::Data,
            final(self)@.dims == old(self)@.dims,
            final(self)@.vars == old(self)@.vars,
            final(self)@.gattrs == old(self)@.gattrs,
            final(self)@.format == old(self)@.format,
    {
        self.mode = Mode::Data;
    }

    /// Replace the full payload of the variable at index `j`.
    pub fn put_var_data(&mut self, j: usize, data: Vec<u8>)
        requires
            old(self)@.mode == Mode::Data,
            j < old(self)@.vars.len(),
        ensures
            final(self)@.vars == old(self)@.vars.update(
                j as int,
                (VarV { data: data@, ..old(self)@.vars[j as int] }),
            ),
            final(self)@.dims == old(self)@.dims,
            final(self)@.gattrs == old(self)@.gattrs,
            final(self)@.mode == old(self)@.mode,
            final(self)@.format == old(self)@.format,
    {
        let v = &mut self.vars[j];
        v.data = data;
        proof {
            assert(self@.vars =~= old(self)@.vars.update(
                j as int,
                VarV { data: data@, ..old(self)@.vars[j as int] },
            ));
        }
    }

    /// Set the current extent of the unlimited dimension at index `k`, as a
    /// payload write does when it fills records along that axis.
    pub fn set_unlimited_len(&mut self, k: usize, len: usize)
        requires
            old(self)@.mode == Mode::Data,
            k < old(self)@.dims.len(),
            old(self)@.dims[k as int].unlimited,
        ensures
            final(self)@.dims == old(self)@.dims.update(
                k as int,
                (DimV { len: len as nat, ..old(self)@.dims[k as int] }),
            ),
            final(self)@.vars == old(self)@.vars,
            final(self)@.gattrs == old(self)@.gattrs,
            final(self)@.mode == old(self)@.mode,
            final(self)@.format == old(self)@.format,
    {
        let d = &mut self.dims[k];
        d.len = len;
        proof {
            assert(self@.dims =~= old(self)@.dims.update(
                k as int,
                DimV { len: len as nat, ..old(self)@.dims[k as int] },
            ));
        }
    }
}

} // verus!
