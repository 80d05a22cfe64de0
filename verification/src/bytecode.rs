//! The stack bytecode: instructions, basic blocks, functions, and memory layouts.
use vstd::prelude::*;

use crate::common::{Binop, Unop};

verus! {

/// A bytecode instruction. Instructions take their operands from the
/// operand stack and push their results onto it.
#[derive(Debug)]
pub enum Inst {
    PushInt(i64),
    PushBool(bool),
    Binop(Binop),
    Unop(Unop),
    /// Pops a value and stores it into local `id` at byte `offset`.
    SetLocal { id: usize, offset: u32 },
    /// Pushes the value of type `tp` stored in local `id` at byte `offset`.
    Get { id: usize, offset: u32, tp: Type },
    /// Pushes the address of byte `offset` of local `id`.
    LocalAddr { id: usize, offset: u32 },
    /// Pops a pointer and pushes the value of type `tp` at `offset` from it.
    Load { offset: u32, tp: Type },
    /// Pops a pointer, then a value, and stores the value at `offset` from the pointer.
    Store { offset: u32 },
    /// Pops a source pointer, then a destination pointer, and copies `size` bytes.
    MemCopy { size: usize },
    /// Pops an integer, then a pointer, and pushes the pointer moved by the integer.
    CapOffset,
    Drop,
    Dup,
    Call(String),
}

/// A straight-line sequence of instructions ending in a terminator.
pub struct Block {
    pub insts: Vec<Inst>,
    pub terminator: Terminator,
}

/// How control leaves a block.
#[derive(Debug, Clone, Copy, PartialEq, Eq, Structural)]
pub enum Terminator {
    /// Continue with the given block.
    Jmp(usize),
    /// Pop a boolean; continue with the first block if it is true, the second otherwise.
    Br(usize, usize),
    /// Return from the function.
    Ret,
}

/// A compiled function: its blocks (block 0 is the entry), the sizes in
/// bytes of its local variables, and its signature.
pub struct Func {
    pub blocks: Vec<Block>,
    pub variables: Vec<u32>,
    pub sig: FuncSig,
}

/// The layouts of a function's arguments and results.
pub struct FuncSig {
    pub args: Vec<Layout>,
    pub rets: Vec<Layout>,
}

/// A compiled program: its functions and the external functions it calls,
/// each with its name.
pub struct Prog {
    pub funcs: Vec<(String, Func)>,
    pub externs: Vec<(String, FuncSig)>,
}

impl Block {
    /// A block with no instructions that returns.
    pub fn empty() -> (b: Self)
        ensures
            b.insts@.len() == 0,
            b.terminator == Terminator::Ret,
    {
        Self { insts: Vec::new(), terminator: Terminator::Ret }
    }
}

/// The primitive machine types.
#[derive(Debug, Clone, Copy, PartialEq, Eq, Structural)]
pub enum Type {
    Int64,
    Bool,
    Ptr,
    UInt8,
    UInt64,
}

/// Memory layout of a value.
pub struct Layout {
    pub size: usize,
    pub align: u32,
    pub fields: Fields,
}

/// What a layout is made of: a primitive, `count` copies of `stride`, or
/// fields at byte offsets.
pub enum Fields {
    Primitive(Type),
    Array { stride: Box<Layout>, count: usize },
    Struct { fields: Vec<(u32, Layout)> },
}

/// How values of a layout are passed between functions.
#[derive(Debug, Clone, Copy, PartialEq, Eq, Structural)]
pub enum Abi {
    Unit,
    Scalar(Type),
    ScalarPair(Type, Type),
    Struct,
}

/// The mathematical value of a layout.
#[verifier::ext_equal]
pub struct LayoutV {
    pub size: nat,
    pub align: nat,
    pub fields: FieldsV,
}

/// The mathematical value of the fields of a layout.
#[verifier::ext_equal]
pub enum FieldsV {
    Primitive(Type),
    Array { stride: Box<LayoutV>, count: nat },
    Struct { fields: Seq<(nat, LayoutV)> },
}

impl View for Layout {
    type V = LayoutV;

    open spec fn view(&self) -> LayoutV {
        layout_view(*self)
    }
}

/// The mathematical value of a layout, field by field.
pub open spec fn layout_view(l: Layout) -> LayoutV
    decreases l,
{
    LayoutV {
        size: l.size as nat,
        align: l.align as nat,
        fields: match l.fields {
            Fields::Primitive(t) => FieldsV::Primitive(t),
            Fields::Array { stride, count } => FieldsV::Array {
                stride: Box::new(layout_view(*stride)),
                count: count as nat,
            },
            Fields::Struct { fields } => FieldsV::Struct {
                fields: Seq::new(
                    fields@.len(),
                    |i: int|
                        if 0 <= i < fields@.len() {
                            (fields@[i].0 as nat, layout_view(fields@[i].1))
                        } else {
                            (0nat, LayoutV { size: 0, align: 0, fields: FieldsV::Primitive(Type::Bool) })
                        },
                ),
            },
        },
    }
}

/// The values of all the layouts of a sequence.
pub open spec fn layouts_view(ls: Seq<Layout>) -> Seq<LayoutV> {
    ls.map_values(|l: Layout| layout_view(l))
}

/// The size in bytes of a primitive type.
pub open spec fn type_size(t: Type) -> nat {
    match t {
        Type::Int64 => 8,
        Type::Bool => 1,
        Type::Ptr => 8,
        Type::UInt8 => 1,
        Type::UInt64 => 8,
    }
}

/// The layout of a single primitive.
pub open spec fn primitive_layout(t: Type) -> LayoutV {
    LayoutV { size: type_size(t), align: type_size(t), fields: FieldsV::Primitive(t) }
}

/// `n` copies of `s`, one after another.
pub open spec fn seq_repeat<A>(s: Seq<A>, n: nat) -> Seq<A>
    decreases n,
{
    if n == 0 {
        Seq::empty()
    } else {
        seq_repeat(s, (n - 1) as nat) + s
    }
}

/// The primitives a layout is made of, in memory order.
pub open spec fn primitives_of(l: LayoutV) -> Seq<Type>
    decreases l, 1int,
{
    match l.fields {
        FieldsV::Primitive(t) => seq![t],
        FieldsV::Array { stride, count } => seq_repeat(primitives_of(*stride), count),
        FieldsV::Struct { fields } => field_primitives(fields).flatten_alt(),
    }
}

/// The primitives of each field, field by field.
pub open spec fn field_primitives(fields: Seq<(nat, LayoutV)>) -> Seq<Seq<Type>>
    decreases fields, 0int,
{
    Seq::new(
        fields.len(),
        |i: int|
            if 0 <= i < fields.len() {
                primitives_of(fields[i].1)
            } else {
                Seq::empty()
            },
    )
}

/// `n` copies of `s` are `n` times as long as `s`.
pub proof fn lemma_seq_repeat_len<A>(s: Seq<A>, n: nat)
    ensures
        seq_repeat(s, n).len() == n * s.len(),
    decreases n,
{
    if n > 0 {
        let m = (n - 1) as nat;
        lemma_seq_repeat_len(s, m);
        assert(seq_repeat(s, n) == seq_repeat(s, m) + s);
        assert(n * s.len() == m * s.len() + s.len()) by (nonlinear_arith)
            requires
                m + 1 == n,
        ;
    } else {
        assert(seq_repeat(s, n) == Seq::<A>::empty());
        assert(n * s.len() == 0) by (nonlinear_arith)
            requires
                n == 0,
        ;
    }
}

/// The primitives of a layout are those of its parts in memory order: a
/// struct of no fields has none; a struct of the fields `ls` followed by
/// `l` has the primitives of the struct of `ls` followed by those of `l`;
/// an array of `count` elements has the element's primitives `count`
/// times, so `count` times as many.
pub proof fn lemma_primitives_compose(ls: Seq<LayoutV>, l: LayoutV, count: nat)
    ensures
        primitives_of(struct_layout(Seq::empty())) == Seq::<Type>::empty(),
        primitives_of(struct_layout(ls.push(l))) == primitives_of(struct_layout(ls)) + primitives_of(l),
        primitives_of(array_layout(count, l)) == seq_repeat(primitives_of(l), count),
        primitives_of(array_layout(count, l)).len() == count * primitives_of(l).len(),
{
    let ls1 = ls.push(l);
    let f0 = field_primitives(struct_layout(ls).fields->fields);
    let f1 = field_primitives(struct_layout(ls1).fields->fields);
    assert(f1.drop_last() =~= f0) by {
        assert forall|i: int| 0 <= i < f0.len() implies f1.drop_last()[i] == f0[i] by {
            assert(ls1[i] == ls[i]);
        }
    }
    assert(f1.last() == primitives_of(l));
    assert(field_primitives(struct_layout(Seq::<LayoutV>::empty()).fields->fields) =~= Seq::<Seq<Type>>::empty());
    lemma_seq_repeat_len(primitives_of(l), count);
}

/// How a layout with the given primitives is passed.
pub open spec fn abi_of(l: LayoutV) -> Abi {
    match l.fields {
        FieldsV::Primitive(t) => Abi::Scalar(t),
        FieldsV::Array { .. } => Abi::Struct,
        FieldsV::Struct { .. } => {
            let p = primitives_of(l);
            if p.len() == 0 {
                Abi::Unit
            } else if p.len() == 1 {
                Abi::Scalar(p[0])
            } else if p.len() == 2 {
                Abi::ScalarPair(p[0], p[1])
            } else {
                Abi::Struct
            }
        },
    }
}

/// The sum of the sizes of the first `n` layouts.
pub open spec fn sum_sizes(ls: Seq<LayoutV>, n: int) -> nat
    decreases n,
{
    if n <= 0 {
        0
    } else {
        sum_sizes(ls, n - 1) + ls[n - 1].size
    }
}

/// The sum of the sizes of the first `n` layouts, each size taken modulo 2^32.
pub open spec fn sum_sizes_u32(ls: Seq<LayoutV>, n: int) -> nat
    decreases n,
{
    if n <= 0 {
        0
    } else {
        sum_sizes_u32(ls, n - 1) + ls[n - 1].size % 0x1_0000_0000
    }
}

/// The largest alignment among the first `n` layouts, 0 if there is none.
pub open spec fn max_align(ls: Seq<LayoutV>, n: int) -> nat
    decreases n,
{
    if n <= 0 {
        0
    } else {
        let m = max_align(ls, n - 1);
        if ls[n - 1].align > m {
            ls[n - 1].align
        } else {
            m
        }
    }
}

/// The layout of a struct whose fields have layouts `ls`, laid out one
/// after the other without padding.
pub open spec fn struct_layout(ls: Seq<LayoutV>) -> LayoutV {
    LayoutV {
        size: sum_sizes(ls, ls.len() as int),
        align: max_align(ls, ls.len() as int),
        fields: FieldsV::Struct {
            fields: Seq::new(ls.len(), |i: int| (sum_sizes_u32(ls, i), ls[i])),
        },
    }
}

/// The layout of an array of `count` elements of layout `l`.
pub open spec fn array_layout(count: nat, l: LayoutV) -> LayoutV {
    LayoutV {
        size: l.size * count,
        align: l.align,
        fields: FieldsV::Array { stride: Box::new(l), count },
    }
}

/// The layout that holds nothing.
pub open spec fn unit_layout() -> LayoutV {
    LayoutV { size: 0, align: 0, fields: FieldsV::Struct { fields: Seq::empty() } }
}

/// Sums over a longer prefix are no smaller.
pub proof fn lemma_sum_sizes_monotone(ls: Seq<LayoutV>, i: int, j: int)
    requires
        0 <= i <= j,
    ensures
        sum_sizes(ls, i) <= sum_sizes(ls, j),
    decreases j - i,
{
    if i < j {
        lemma_sum_sizes_monotone(ls, i, j - 1);
    }
}

/// Sums over a longer prefix are no smaller.
pub proof fn lemma_sum_sizes_u32_monotone(ls: Seq<LayoutV>, i: int, j: int)
    requires
        0 <= i <= j,
    ensures
        sum_sizes_u32(ls, i) <= sum_sizes_u32(ls, j),
    decreases j - i,
{
    if i < j {
        lemma_sum_sizes_u32_monotone(ls, i, j - 1);
    }
}

/// With sizes below 2^32 the truncated sums are the sums.
proof fn lemma_sum_sizes_small(ls: Seq<LayoutV>, n: int)
    requires
        n <= ls.len(),
        forall|i: int| 0 <= i < ls.len() ==> (#[trigger] ls[i]).size < 0x1_0000_0000,
    ensures
        sum_sizes_u32(ls, n) == sum_sizes(ls, n),
    decreases n,
{
    if n > 0 {
        lemma_sum_sizes_small(ls, n - 1);
        assert(ls[n - 1].size % 0x1_0000_0000 == ls[n - 1].size);
    }
}

/// The fields of a struct are laid out one after another: the first at
/// offset 0, each next one where the one before it ends, and the last one
/// ending where the struct does; so no two fields overlap and all lie
/// inside the struct. This holds when every field is smaller than 2^32
/// bytes, as offsets are 32-bit.
pub proof fn lemma_struct_fields_contiguous(ls: Seq<LayoutV>)
    requires
        forall|i: int| 0 <= i < ls.len() ==> (#[trigger] ls[i]).size < 0x1_0000_0000,
    ensures
        ({
            let l = struct_layout(ls);
            let f = l.fields->fields;
            &&& f.len() == ls.len()
            &&& forall|i: int| 0 <= i < ls.len() ==> (#[trigger] f[i]).1 == ls[i]
            &&& ls.len() > 0 ==> f[0].0 == 0
            &&& forall|i: int| 0 <= i < ls.len() - 1 ==> (#[trigger] f[i + 1]).0 == f[i].0 + ls[i].size
            &&& ls.len() > 0 ==> f[ls.len() - 1].0 + ls.last().size == l.size
        }),
{
    let f = struct_layout(ls).fields->fields;
    assert forall|i: int| 0 <= i < ls.len() - 1 implies (#[trigger] f[i + 1]).0 == f[i].0 + ls[i].size by {
        lemma_sum_sizes_small(ls, i + 1);
        lemma_sum_sizes_small(ls, i);
    }
    if ls.len() > 0 {
        lemma_sum_sizes_small(ls, ls.len() - 1);
    }
}

impl Type {
    /// The layout of this primitive type.
    pub fn as_layout(self) -> (l: Layout)
        ensures
            l@ == primitive_layout(self),
    {
        match self {
            Type::Int64 => Layout::int64(),
            Type::Bool => Layout::bool(),
            Type::Ptr => Layout::ptr(),
            Type::UInt8 => Layout { size: 1, align: 1, fields: Fields::Primitive(Type::UInt8) },
            Type::UInt64 => Layout { size: 8, align: 8, fields: Fields::Primitive(Type::UInt64) },
        }
    }

    /// Size in bytes.
    pub fn size(&self) -> (n: u32)
        ensures
            n == type_size(*self),
    {
        match self {
            Type::Int64 => 8,
            Type::Bool => 1,
            Type::Ptr => 8,
            Type::UInt8 => 1,
            Type::UInt64 => 8,
        }
    }

    /// Alignment in bytes.
    pub fn align(&self) -> (n: u32)
        ensures
            n == type_size(*self),
    {
        match self {
            Type::Int64 => 8,
            Type::Bool => 1,
            Type::Ptr => 8,
            Type::UInt8 => 1,
            Type::UInt64 => 8,
        }
    }
}

impl Layout {
    pub fn size(&self) -> (n: usize)
        ensures
            n == self.size,
    {
        self.size
    }

    pub fn align(&self) -> (n: u32)
        ensures
            n == self.align,
    {
        self.align
    }

    pub fn int64() -> (l: Self)
        ensures
            l@ == primitive_layout(Type::Int64),
    {
        Self { size: 8, align: 8, fields: Fields::Primitive(Type::Int64) }
    }

    pub fn bool() -> (l: Self)
        ensures
            l@ == primitive_layout(Type::Bool),
    {
        Self { size: 1, align: 1, fields: Fields::Primitive(Type::Bool) }
    }

    pub fn ptr() -> (l: Self)
        ensures
            l@ == primitive_layout(Type::Ptr),
    {
        Self { size: 8, align: 8, fields: Fields::Primitive(Type::Ptr) }
    }

    pub fn unit() -> (l: Layout)
        ensures
            l@ == unit_layout(),
    {
        let l = Self { size: 0, align: 0, fields: Fields::Struct { fields: Vec::new() } };
        assert(l@.fields->fields =~= Seq::<(nat, LayoutV)>::empty());
        l
    }

    /// The layout of a struct made of `tps`, one after the other without
    /// padding: each field's offset is the sum of the sizes before it (each
    /// taken modulo 2^32), the size is the sum of all sizes and the alignment
    /// the largest alignment (0 for no fields).
    pub fn strct(tps: &[Layout]) -> (l: Self)
        requires
            sum_sizes_u32(layouts_view(tps@), tps@.len() as int) <= u32::MAX,
            sum_sizes(layouts_view(tps@), tps@.len() as int) <= usize::MAX,
        ensures
            l@ == struct_layout(layouts_view(tps@)),
    {
        let ghost ls = layouts_view(tps@);
        let n = tps.len();
        let mut fields: Vec<(u32, Layout)> = Vec::new();
        let mut off: u32 = 0;
        let mut size: usize = 0;
        let mut align: u32 = 0;
        for i in 0..n
            invariant
                n == tps@.len(),
                ls == layouts_view(tps@),
                sum_sizes_u32(ls, n as int) <= u32::MAX,
                sum_sizes(ls, n as int) <= usize::MAX,
                fields@.len() == i,
                off == sum_sizes_u32(ls, i as int),
                size == sum_sizes(ls, i as int),
                align == max_align(ls, i as int),
                forall|j: int| #![trigger fields@[j]] 0 <= j < i ==> fields@[j].0 == sum_sizes_u32(ls, j)
                    && layout_view(fields@[j].1) == ls[j],
        {
            let tp = &tps[i];
            proof {
                lemma_sum_sizes_monotone(ls, i + 1, n as int);
                lemma_sum_sizes_u32_monotone(ls, i + 1, n as int);
            }
            let c = tp.copy();
            fields.push((off, c));
            let sz = tp.size();
            let t = sz as u32;
            assert((t as u64) == (sz as u64) % 0x1_0000_0000u64) by (bit_vector)
                requires t == sz as u32;
            off = off + t;
            size = size + sz;
            if tp.align() > align {
                align = tp.align();
            }
        }
        let l = Self { size, align, fields: Fields::Struct { fields } };
        assert(l@.fields->fields =~= struct_layout(ls).fields->fields);
        l
    }

    /// The layout of `size` elements of layout `lt`.
    pub fn array(size: usize, lt: Layout) -> (l: Self)
        requires
            lt.size * size <= usize::MAX,
        ensures
            l@ == array_layout(size as nat, lt@),
    {
        Self {
            size: lt.size * size,
            align: lt.align,
            fields: Fields::Array { stride: Box::new(lt), count: size },
        }
    }

    /// The primitives this layout is made of, in memory order.
    pub fn primitives(&self) -> (r: Vec<Type>)
        ensures
            r@ == primitives_of(self@),
        decreases self,
    {
        match &self.fields {
            Fields::Primitive(t) => {
                let r = vec![*t];
                assert(r@ =~= seq![*t]);
                r
            },
            Fields::Array { stride, count } => {
                let p = (**stride).primitives();
                let mut r: Vec<Type> = Vec::new();
                let c = *count;
                for k in 0..c
                    invariant
                        r@ == seq_repeat(p@, k as nat),
                {
                    let m = p.len();
                    let ghost before = r@;
                    for j in 0..m
                        invariant
                            m == p@.len(),
                            r@ == before + p@.take(j as int),
                    {
                        r.push(p[j]);
                        assert(p@.take(j + 1) =~= p@.take(j as int).push(p@[j as int]));
                        assert(r@ =~= before + p@.take(j + 1));
                    }
                    assert(p@.take(m as int) =~= p@);
                }
                assert(r@ == primitives_of(self@));
                r
            },
            Fields::Struct { fields } => {
                let ghost fv = self@.fields->fields;
                let ghost parts = field_primitives(fv);
                let mut r: Vec<Type> = Vec::new();
                let n = fields.len();
                for i in 0..n
                    invariant
                        n == fields@.len(),
                        self.fields is Struct,
                        self.fields->fields == *fields,
                        fv == self@.fields->fields,
                        fv.len() == n,
                        parts.len() == n,
                        forall|k: int| 0 <= k < n ==> #[trigger] parts[k] == primitives_of(fv[k].1),
                        r@ == parts.take(i as int).flatten_alt(),
                {
                    proof {
                        assert(decreases_to!(*fields => fields@[i as int]));
                        assert(decreases_to!(fields@[i as int] => fields@[i as int].1));
                        assert(decreases_to!(self.fields => self.fields->fields));
                        assert(decreases_to!(*self => self.fields));
                    }
                    let p = fields[i].1.primitives();
                    assert(fv[i as int].1 == layout_view(fields@[i as int].1));
                    let m = p.len();
                    let ghost before = r@;
                    for j in 0..m
                        invariant
                            m == p@.len(),
                            r@ == before + p@.take(j as int),
                    {
                        r.push(p[j]);
                        assert(p@.take(j + 1) =~= p@.take(j as int).push(p@[j as int]));
                        assert(r@ =~= before + p@.take(j + 1));
                    }
                    assert(p@.take(m as int) =~= p@);
                    assert(parts.take(i + 1).drop_last() =~= parts.take(i as int));
                }
                assert(parts.take(n as int) =~= parts);
                assert(r@ == primitives_of(self@));
                r
            },
        }
    }

    /// How values of this layout are passed between functions.
    pub fn abi(&self) -> (a: Abi)
        ensures
            a == abi_of(self@),
    {
        match &self.fields {
            Fields::Primitive(tp) => Abi::Scalar(*tp),
            Fields::Array { .. } => Abi::Struct,
            Fields::Struct { .. } => {
                let p = self.primitives();
                if p.len() == 0 {
                    Abi::Unit
                } else if p.len() == 1 {
                    Abi::Scalar(p[0])
                } else if p.len() == 2 {
                    Abi::ScalarPair(p[0], p[1])
                } else {
                    Abi::Struct
                }
            },
        }
    }

    /// A copy of this layout.
    pub fn copy(&self) -> (l: Layout)
        ensures
            l@ == self@,
        decreases self,
    {
        match &self.fields {
            Fields::Primitive(t) => Layout { size: self.size, align: self.align, fields: Fields::Primitive(*t) },
            Fields::Array { stride, count } => {
                let s = (**stride).copy();
                Layout {
                    size: self.size,
                    align: self.align,
                    fields: Fields::Array { stride: Box::new(s), count: *count },
                }
            },
            Fields::Struct { fields } => {
                let mut out: Vec<(u32, Layout)> = Vec::new();
                let n = fields.len();
                for i in 0..n
                    invariant
                        n == fields@.len(),
                        self.fields is Struct,
                        self.fields->fields == *fields,
                        out@.len() == i,
                        forall|j: int| #![trigger out@[j]] 0 <= j < i ==> out@[j].0 == fields@[j].0
                            && layout_view(out@[j].1) == layout_view(fields@[j].1),
                {
                    proof {
                        assert(decreases_to!(*fields => fields@[i as int]));
                        assert(decreases_to!(fields@[i as int] => fields@[i as int].1));
                        assert(self.fields->fields == *fields);
                        assert(decreases_to!(self.fields => self.fields->fields));
                        assert(decreases_to!(*self => self.fields));
                        assert(decreases_to!(*self => fields@[i as int].1));
                    }
                    let c = fields[i].1.copy();
                    out.push((fields[i].0, c));
                }
                let l = Layout { size: self.size, align: self.align, fields: Fields::Struct { fields: out } };
                assert(l@.fields->fields =~= self@.fields->fields);
                l
            },
        }
    }
}

} // verus!
