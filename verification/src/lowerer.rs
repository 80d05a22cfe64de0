//! Lowering typed syntax to the stack bytecode.
use std::collections::HashMap;
use vstd::prelude::*;

use crate::ast::{Db, ExprData, ExprId, FnDef, Ident, PatternData, PatternId};
use crate::bytecode::{
    abi_of, primitive_layout, type_size, unit_layout, Abi, Block, FieldsV, Func, FuncSig, Inst, Layout,
    LayoutV, Terminator, Type,
};
use crate::common::Binop;
use crate::tp::{
    field_lookup_exec, layout_ctx_ok, layout_spec, names_struct, struct_fields, struct_fields_spec, TypeData, TypeDataV,
    TypeId, Types,
};
use crate::typing::{field_lookup, named};

verus! {

/// Where a value lives: in a local variable at a byte offset, or at an
/// offset from the pointer held in a local variable.
#[derive(Debug, Clone, Copy, PartialEq, Eq, Structural)]
pub enum Place {
    Local { id: usize, offset: u32 },
    /// `local_id` is a local variable containing the base pointer.
    Ref { local_id: usize, offset: u32 },
}

/// The state of a function being lowered: its blocks (instructions and
/// terminator), the block being filled, the places of named variables by
/// the index of their name (a new binding of a name replaces the old one),
/// and the layouts of its locals.
pub struct BuilderV {
    pub blocks: Seq<(Seq<Inst>, Terminator)>,
    pub current: usize,
    pub vars: Map<usize, Place>,
    pub variables: Seq<LayoutV>,
}

/// Builder `n` went on from `o` only by adding: every block keeps the
/// instructions it had, and every local keeps its layout.
pub open spec fn extends(o: BuilderV, n: BuilderV) -> bool {
    &&& o.blocks.len() <= n.blocks.len()
    &&& forall|i: int| 0 <= i < o.blocks.len() ==> (#[trigger] o.blocks[i]).0.is_prefix_of(n.blocks[i].0)
    &&& o.variables.is_prefix_of(n.variables)
}

/// What lowering reads: the syntax, the type table, and the type of each
/// expression.
pub struct LowerCtx {
    pub db: Db,
    pub types: Seq<TypeDataV>,
    pub tmap: Seq<Option<TypeId>>,
}

/// The type recorded for `e`.
pub open spec fn tp_of(c: LowerCtx, e: ExprId) -> Option<TypeId> {
    if e.0 < c.tmap.len() {
        c.tmap[e.0 as int]
    } else {
        None
    }
}

/// The layout of type `t`.
pub open spec fn lay(c: LowerCtx, t: TypeId) -> Option<LayoutV> {
    if t.0 < c.types.len() {
        layout_spec(c.db, c.types, t, c.types.len())
    } else {
        None
    }
}

/// The layout of the type of `e`.
pub open spec fn lay_of(c: LowerCtx, e: ExprId) -> Option<LayoutV> {
    match tp_of(c, e) {
        Some(t) => lay(c, t),
        None => None,
    }
}

/// The data of type `t`.
pub open spec fn tdata(c: LowerCtx, t: TypeId) -> Option<TypeDataV> {
    if t.0 < c.types.len() {
        Some(c.types[t.0 as int])
    } else {
        None
    }
}

/// The syntax of `e`.
pub open spec fn ex(c: LowerCtx, e: ExprId) -> ExprData {
    c.db.exprs@[e.0 as int].data
}

/// The primitive type of a layout that is one.
pub open spec fn as_primitive(l: LayoutV) -> Option<Type> {
    match l.fields {
        FieldsV::Primitive(t) => Some(t),
        _ => None,
    }
}

/// The builder with `i` appended to the current block.
pub open spec fn emit(b: BuilderV, i: Inst) -> BuilderV {
    let cur = b.current as int;
    BuilderV { blocks: b.blocks.update(cur, (b.blocks[cur].0.push(i), b.blocks[cur].1)), ..b }
}

/// The place moved `x` bytes further, if the offset fits.
pub open spec fn add_offset_spec(p: Place, x: u32) -> Option<Place> {
    match p {
        Place::Local { id, offset } => if offset + x <= u32::MAX {
            Some(Place::Local { id, offset: (offset + x) as u32 })
        } else {
            None
        },
        Place::Ref { local_id, offset } => if offset + x <= u32::MAX {
            Some(Place::Ref { local_id, offset: (offset + x) as u32 })
        } else {
            None
        },
    }
}

/// Loading the value of type `tp` at `p` onto the stack.
pub open spec fn load_spec(b: BuilderV, p: Place, tp: Type) -> BuilderV {
    match p {
        Place::Local { id, offset } => emit(b, Inst::Get { id, offset, tp }),
        Place::Ref { local_id, offset } => emit(
            emit(b, Inst::Get { id: local_id, offset: 0, tp: Type::Ptr }),
            Inst::Load { offset, tp },
        ),
    }
}

/// Storing the top of the stack at `p`.
pub open spec fn store_spec(b: BuilderV, p: Place) -> BuilderV {
    match p {
        Place::Local { id, offset } => emit(b, Inst::SetLocal { id, offset }),
        Place::Ref { local_id, offset } => emit(
            emit(b, Inst::Get { id: local_id, offset: 0, tp: Type::Ptr }),
            Inst::Store { offset },
        ),
    }
}

/// Pushing the address of `p`.
pub open spec fn leave_addr_spec(b: BuilderV, p: Place) -> BuilderV {
    match p {
        Place::Local { id, offset } => emit(b, Inst::LocalAddr { id, offset }),
        Place::Ref { local_id, offset } => emit(
            emit(
                emit(b, Inst::Get { id: local_id, offset: 0, tp: Type::Ptr }),
                Inst::PushInt(offset as i64),
            ),
            Inst::CapOffset,
        ),
    }
}

/// Copying the bytes of a value of layout `l` from `src` to `dest`.
pub open spec fn copy_to_spec(b: BuilderV, src: Place, dest: Place, l: LayoutV) -> BuilderV {
    emit(leave_addr_spec(leave_addr_spec(b, dest), src), Inst::MemCopy { size: l.size as usize })
}

/// A new empty block, and its index.
pub open spec fn new_block_spec(b: BuilderV) -> (usize, BuilderV) {
    (b.blocks.len() as usize, BuilderV { blocks: b.blocks.push((Seq::empty(), Terminator::Ret)), ..b })
}

/// The builder filling block `id`.
pub open spec fn switch_spec(b: BuilderV, id: usize) -> BuilderV {
    BuilderV { current: id, ..b }
}

/// The builder with the current block's terminator set.
pub open spec fn terminate_spec(b: BuilderV, t: Terminator) -> BuilderV {
    let cur = b.current as int;
    BuilderV { blocks: b.blocks.update(cur, (b.blocks[cur].0, t)), ..b }
}

/// A new local of layout `l`, and its place.
pub open spec fn new_tmp_layout_spec(b: BuilderV, l: LayoutV) -> (Place, BuilderV) {
    (Place::Local { id: b.variables.len() as usize, offset: 0 }, BuilderV { variables: b.variables.push(l), ..b })
}

/// A new local for a value of type `t`.
pub open spec fn new_tmp_spec(c: LowerCtx, b: BuilderV, t: TypeId) -> Option<(Place, BuilderV)> {
    match lay(c, t) {
        Some(l) => Some(new_tmp_layout_spec(b, l)),
        None => None,
    }
}

/// The place of variable `x`: its latest binding.
pub open spec fn get_var_spec(vars: Map<usize, Place>, x: Ident) -> Option<Place> {
    if vars.contains_key(x.0) {
        Some(vars[x.0])
    } else {
        None
    }
}

/// Pops a pointer into a new local and gives the place it points to.
pub open spec fn store_ptr_spec(b: BuilderV) -> (Place, BuilderV) {
    let (tmp, b1) = new_tmp_layout_spec(b, primitive_layout(Type::Ptr));
    (Place::Ref { local_id: b.variables.len() as usize, offset: 0 }, store_spec(b1, tmp))
}

/// The offset of field `name` in a value of type `tp`: the length of a
/// slice, or a field of a struct by its index.
pub open spec fn get_offset_spec(c: LowerCtx, tp: TypeId, name: Ident) -> Option<u32> {
    match tdata(c, tp) {
        Some(TypeDataV::Slice(_, _)) => if c.db.idents@[name.0 as int]@ == "len"@ {
            Some(8)
        } else {
            None
        },
        Some(TypeDataV::Var(sf, tv)) => if names_struct(c.db, sf, tv) {
            match (field_lookup(struct_fields_spec(c.db, sf, tv), name), lay(c, tp)) {
                (Some(f), Some(l)) => match l.fields {
                    FieldsV::Struct { fields } => if f.0 < fields.len() {
                        Some(fields[f.0 as int].0 as u32)
                    } else {
                        None
                    },
                    _ => None,
                },
                _ => None,
            }
        } else {
            None
        },
        _ => None,
    }
}

/// Binding the names of pattern `p` to copies of the value of type `tp`
/// at `place`. Each part of a tuple pattern, from the last to the first,
/// is matched against the whole place.
pub open spec fn lower_pat_spec(c: LowerCtx, b: BuilderV, p: PatternId, tp: TypeId, place: Place) -> Option<BuilderV>
    decreases p.0, 1int, 0int,
{
    if p.0 >= c.db.patterns@.len() {
        None
    } else {
        match c.db.patterns@[p.0 as int].data {
            PatternData::Wildcard => Some(b),
            PatternData::Var(x, _) => match lay(c, tp) {
                Some(l) => {
                    let (id, b1) = new_tmp_layout_spec(b, l);
                    let b2 = BuilderV { vars: b1.vars.insert(x.0, id), ..b1 };
                    Some(copy_to_spec(b2, place, id, l))
                },
                None => None,
            },
            PatternData::Tuple(ps) => match tdata(c, tp) {
                Some(TypeDataV::Tuple(tps)) => {
                    let n = if ps@.len() <= tps.len() { ps@.len() } else { tps.len() };
                    lower_pats_spec(c, b, p, ps@, tps, place, n as int)
                },
                _ => None,
            },
        }
    }
}

/// Lowers the pattern parts `ps[..i]` against `tps[..i]`, from the last to
/// the first.
pub open spec fn lower_pats_spec(
    c: LowerCtx,
    b: BuilderV,
    p: PatternId,
    ps: Seq<PatternId>,
    tps: Seq<TypeId>,
    place: Place,
    i: int,
) -> Option<BuilderV>
    decreases p.0, 0int, i,
{
    if i <= 0 || i > ps.len() || i > tps.len() {
        Some(b)
    } else if ps[i - 1].0 >= p.0 {
        None
    } else {
        match lower_pat_spec(c, b, ps[i - 1], tps[i - 1], place) {
            Some(b1) => lower_pats_spec(c, b1, p, ps, tps, place, i - 1),
            None => None,
        }
    }
}

/// Lowers `e` into a new local, and gives its place.
pub open spec fn lower_into_tmp_spec(c: LowerCtx, b: BuilderV, e: ExprId) -> Option<(Place, BuilderV)>
    decreases e.0, 3int, 0int,
{
    match tp_of(c, e) {
        Some(t) => match new_tmp_spec(c, b, t) {
            Some((x, b1)) => match lower_spec(c, b1, e, x) {
                Some(b2) => Some((x, b2)),
                None => None,
            },
            None => None,
        },
        None => None,
    }
}

/// The element layout of an array or slice `a`, after pushing the address
/// of its first element.
pub open spec fn elem_base_spec(c: LowerCtx, b: BuilderV, e: ExprId, a: ExprId) -> Option<(LayoutV, BuilderV)>
    decreases e.0, 0int, 0int,
{
    if a.0 >= e.0 {
        None
    } else {
        match tp_of(c, a) {
            Some(ta) => match tdata(c, ta) {
                Some(TypeDataV::Slice(t, _)) => match (lower_into_tmp_spec(c, b, a), lay(c, t)) {
                    (Some((x, b1)), Some(l)) => Some((l, load_spec(b1, x, Type::Ptr))),
                    _ => None,
                },
                Some(TypeDataV::Array(_, t)) => match (lower_place_spec(c, b, a), lay(c, t)) {
                    (Some((Some(pl), b1)), Some(l)) => Some((l, leave_addr_spec(b1, pl))),
                    _ => None,
                },
                _ => None,
            },
            None => None,
        }
    }
}

/// Pushes the address of element `idx` from the base address on the stack.
pub open spec fn elem_addr_spec(b: BuilderV, idx: Place, l: LayoutV) -> BuilderV {
    emit(
        emit(emit(load_spec(b, idx, Type::Int64), Inst::PushInt(l.size as i64)), Inst::Binop(Binop::Mul)),
        Inst::CapOffset,
    )
}

/// The place that `e` denotes, if it denotes one; none when it is a
/// value only.
pub open spec fn lower_place_spec(c: LowerCtx, b: BuilderV, e: ExprId) -> Option<(Option<Place>, BuilderV)>
    decreases e.0, 1int, 0int,
{
    if e.0 >= c.db.exprs@.len() {
        None
    } else {
        match ex(c, e) {
            ExprData::Error => None,
            ExprData::Var(x) => match get_var_spec(b.vars, x) {
                Some(p) => Some((Some(p), b)),
                None => None,
            },
            ExprData::Field(a, name) => if a.0 >= e.0 {
                None
            } else {
                match tp_of(c, a) {
                    Some(ta) => match get_offset_spec(c, ta, name) {
                        Some(off) => match lower_place_spec(c, b, a) {
                            Some((Some(pl), b1)) => match add_offset_spec(pl, off) {
                                Some(p2) => Some((Some(p2), b1)),
                                None => None,
                            },
                            _ => None,
                        },
                        None => None,
                    },
                    None => None,
                }
            },
            ExprData::Let(p, a, body) => if a.0 >= e.0 || body.0 >= e.0 {
                None
            } else {
                match (lower_into_tmp_spec(c, b, a), tp_of(c, a)) {
                    (Some((pl, b1)), Some(ta)) => match lower_pat_spec(c, b1, p, ta, pl) {
                        Some(b2) => lower_place_spec(c, b2, body),
                        None => None,
                    },
                    _ => None,
                }
            },
            ExprData::Deref(a) => if a.0 >= e.0 {
                None
            } else {
                match lower_into_tmp_spec(c, b, a) {
                    Some((Place::Local { id, .. }, b1)) => Some((Some(Place::Ref { local_id: id, offset: 0 }), b1)),
                    _ => None,
                }
            },
            ExprData::Sequence(a, body) => if a.0 >= e.0 || body.0 >= e.0 {
                None
            } else {
                match lower_into_tmp_spec(c, b, a) {
                    Some((_, b1)) => lower_place_spec(c, b1, body),
                    None => None,
                }
            },
            ExprData::Index(a, i) => if i.0 >= e.0 {
                None
            } else {
                match tp_of(c, i) {
                    Some(ti) => match tdata(c, ti) {
                        Some(TypeDataV::Primitive(_)) => match elem_base_spec(c, b, e, a) {
                            Some((l, b1)) => match lower_into_tmp_spec(c, b1, i) {
                                Some((ip, b2)) => {
                                    let (pl, b3) = store_ptr_spec(elem_addr_spec(b2, ip, l));
                                    Some((Some(pl), b3))
                                },
                                None => None,
                            },
                            None => None,
                        },
                        Some(TypeDataV::Range) => Some((None, b)),
                        _ => None,
                    },
                    None => None,
                }
            },
            _ => Some((None, b)),
        }
    }
}

/// The place that `e` had before `lower` copied its value to where it was
/// asked for: the place that `lower_place` gives for it, if any.
pub open spec fn place_of_spec(c: LowerCtx, b: BuilderV, e: ExprId) -> Option<Place> {
    match lower_place_spec(c, b, e) {
        Some((p, _)) => p,
        None => None,
    }
}

/// Lowers `e` so that its value ends up at `dest`.
pub open spec fn lower_spec(c: LowerCtx, b: BuilderV, e: ExprId, dest: Place) -> Option<BuilderV>
    decreases e.0, 2int, 0int,
{
    if e.0 >= c.db.exprs@.len() {
        None
    } else {
        match ex(c, e) {
            ExprData::Number(n) => Some(store_spec(emit(b, Inst::PushInt(n)), dest)),
            ExprData::Bool(v) => Some(store_spec(emit(b, Inst::PushBool(v)), dest)),
            ExprData::Binop(op, x, y) => if x.0 >= e.0 || y.0 >= e.0 {
                None
            } else {
                match lower_into_tmp_spec(c, b, x) {
                    Some((px, b1)) => match lower_into_tmp_spec(c, b1, y) {
                        Some((py, b2)) => match (lay_of(c, x), lay_of(c, y)) {
                            (Some(lx), Some(ly)) => match (as_primitive(lx), as_primitive(ly)) {
                                (Some(tx), Some(ty)) => Some(
                                    store_spec(emit(load_spec(load_spec(b2, px, tx), py, ty), Inst::Binop(op)), dest),
                                ),
                                _ => None,
                            },
                            _ => None,
                        },
                        None => None,
                    },
                    None => None,
                }
            },
            ExprData::Unop(op, x) => if x.0 >= e.0 {
                None
            } else {
                match lower_into_tmp_spec(c, b, x) {
                    Some((px, b1)) => match lay_of(c, x) {
                        Some(lx) => match as_primitive(lx) {
                            Some(tx) => Some(store_spec(emit(load_spec(b1, px, tx), Inst::Unop(op)), dest)),
                            None => None,
                        },
                        None => None,
                    },
                    None => None,
                }
            },
            ExprData::Let(p, a, body) => if a.0 >= e.0 || body.0 >= e.0 {
                None
            } else {
                match (lower_into_tmp_spec(c, b, a), tp_of(c, a)) {
                    (Some((pl, b1)), Some(ta)) => match lower_pat_spec(c, b1, p, ta, pl) {
                        Some(b2) => lower_spec(c, b2, body, dest),
                        None => None,
                    },
                    _ => None,
                }
            },
            ExprData::Var(x) => match (lay_of(c, e), get_var_spec(b.vars, x)) {
                (Some(l), Some(src)) => Some(copy_to_spec(b, src, dest, l)),
                _ => None,
            },
            ExprData::FnCall(f, args) => lower_call_spec(c, b, e, f, args@, dest),
            ExprData::If(cond, th, el) => lower_if_spec(c, b, e, cond, th, el, dest),
            ExprData::While(cond, body) => lower_while_spec(c, b, e, cond, body, dest),
            ExprData::Assign(a, v) => if a.0 >= e.0 || v.0 >= e.0 {
                None
            } else {
                match lower_place_spec(c, b, a) {
                    Some((Some(pl), b1)) => lower_spec(c, b1, v, pl),
                    _ => None,
                }
            },
            ExprData::Deref(a) => if a.0 >= e.0 {
                None
            } else {
                match lay_of(c, e) {
                    Some(l) => match lower_place_spec(c, b, e) {
                        Some((Some(pl), b1)) => Some(copy_to_spec(b1, pl, dest, l)),
                        _ => None,
                    },
                    None => None,
                }
            },
            ExprData::AddressOf(a) => if a.0 >= e.0 {
                None
            } else {
                match lower_place_spec(c, b, a) {
                    Some((Some(pl), b1)) => Some(store_spec(leave_addr_spec(b1, pl), dest)),
                    Some((None, b1)) => match lower_into_tmp_spec(c, b1, a) {
                        Some((pl, b2)) => Some(store_spec(leave_addr_spec(b2, pl), dest)),
                        None => None,
                    },
                    None => None,
                }
            },
            ExprData::Tuple(es) => match lay_of(c, e) {
                Some(l) => match l.fields {
                    FieldsV::Struct { fields } => lower_elems_spec(c, b, e, es@, fields, dest, 0),
                    _ => None,
                },
                None => None,
            },
            ExprData::Sequence(a, body) => if a.0 >= e.0 || body.0 >= e.0 {
                None
            } else {
                match lower_into_tmp_spec(c, b, a) {
                    Some((_, b1)) => lower_spec(c, b1, body, dest),
                    None => None,
                }
            },
            ExprData::Struct(_, items) => match (tp_of(c, e), lay_of(c, e)) {
                (Some(t), Some(l)) => match (tdata(c, t), l.fields) {
                    (Some(TypeDataV::Var(sf, tv)), FieldsV::Struct { fields }) => if names_struct(c.db, sf, tv) {
                        lower_fields_spec(c, b, e, struct_fields_spec(c.db, sf, tv), items@, fields, dest, 0)
                    } else {
                        None
                    },
                    _ => None,
                },
                _ => None,
            },
            ExprData::Field(_, _) => match lay_of(c, e) {
                Some(l) => match lower_place_spec(c, b, e) {
                    Some((Some(src), b1)) => Some(copy_to_spec(b1, src, dest, l)),
                    _ => None,
                },
                None => None,
            },
            ExprData::Array(es) => match lay_of(c, e) {
                Some(l) => match l.fields {
                    FieldsV::Array { stride, .. } => lower_array_spec(c, b, e, es@, stride.size as u32, dest, 0, 0),
                    _ => None,
                },
                None => None,
            },
            ExprData::Index(a, i) => lower_index_spec(c, b, e, a, i, dest),
            ExprData::Range(x, y) => if x.0 >= e.0 || y.0 >= e.0 {
                None
            } else {
                match (lower_spec(c, b, x, dest), add_offset_spec(dest, 8)) {
                    (Some(b1), Some(d8)) => lower_spec(c, b1, y, d8),
                    _ => None,
                }
            },
            _ => None,
        }
    }
}

/// A call: the arguments are pushed, the function is called, and its
/// result is stored at `dest` as its passing convention wants; a result
/// passed by address gets the address of `dest` before the arguments.
pub open spec fn lower_call_spec(c: LowerCtx, b: BuilderV, e: ExprId, f: ExprId, args: Seq<ExprId>, dest: Place) -> Option<BuilderV>
    decreases e.0, 1int, 0int,
{
    if f.0 >= e.0 {
        None
    } else {
        match (ex(c, f), lay_of(c, e)) {
            (ExprData::Var(name), Some(l)) => {
                let b1 = if abi_of(l) is Struct {
                    leave_addr_spec(b, dest)
                } else {
                    b
                };
                match lower_args_spec(c, b1, e, args, 0) {
                    Some(b2) => {
                        let b3 = emit(b2, Inst::Call(c.db.idents@[name.0 as int]));
                        match abi_of(l) {
                            Abi::Scalar(_) => Some(store_spec(b3, dest)),
                            Abi::ScalarPair(p0, _) => match add_offset_spec(dest, type_size(p0) as u32) {
                                Some(d1) => Some(store_spec(store_spec(b3, d1), dest)),
                                None => None,
                            },
                            _ => Some(b3),
                        }
                    },
                    None => None,
                }
            },
            _ => None,
        }
    }
}

/// `if`: the condition ends the current block with a branch to the then
/// and else blocks, which both jump to the block after.
pub open spec fn lower_if_spec(c: LowerCtx, b: BuilderV, e: ExprId, cond: ExprId, th: ExprId, el: Option<ExprId>, dest: Place) -> Option<BuilderV>
    decreases e.0, 1int, 0int,
{
    if cond.0 >= e.0 || th.0 >= e.0 || (el matches Some(x) && x.0 >= e.0) {
        None
    } else {
        let (tb, b1) = new_block_spec(b);
        let (eb, b2) = new_block_spec(b1);
        let (nb, b3) = new_block_spec(b2);
        match lower_into_tmp_spec(c, b3, cond) {
            Some((pc, b4)) => {
                let b5 = switch_spec(terminate_spec(load_spec(b4, pc, Type::Bool), Terminator::Br(tb, eb)), tb);
                match lower_spec(c, b5, th, dest) {
                    Some(b6) => {
                        let b7 = switch_spec(terminate_spec(b6, Terminator::Jmp(nb)), eb);
                        let b8 = match el {
                            Some(x) => lower_spec(c, b7, x, dest),
                            None => Some(b7),
                        };
                        match b8 {
                            Some(b9) => Some(switch_spec(terminate_spec(b9, Terminator::Jmp(nb)), nb)),
                            None => None,
                        }
                    },
                    None => None,
                }
            },
            None => None,
        }
    }
}

/// An `if` goes to its then branch when its condition holds and to its
/// else branch when it does not: lowering `if v { x } else { y }`, for
/// every boolean literal `v` and number literals `x` and `y`, ends the block
/// where the condition is computed with a branch whose true target begins
/// by pushing `x` and whose false target begins by pushing `y`.
pub proof fn lemma_if_branch_targets(
    c: LowerCtx,
    b: BuilderV,
    e: ExprId,
    cond: ExprId,
    th: ExprId,
    el: ExprId,
    dest: Place,
    v: bool,
    x: i64,
    y: i64,
)
    requires
        lower_if_spec(c, b, e, cond, th, Some(el), dest) is Some,
        cond.0 < c.db.exprs@.len(),
        th.0 < c.db.exprs@.len(),
        el.0 < c.db.exprs@.len(),
        ex(c, cond) == ExprData::Bool(v),
        ex(c, th) == ExprData::Number(x),
        ex(c, el) == ExprData::Number(y),
        b.current < b.blocks.len(),
        b.blocks.len() + 3 <= usize::MAX,
    ensures
        ({
            let out = lower_if_spec(c, b, e, cond, th, Some(el), dest).unwrap();
            out.blocks[b.current as int].1 matches Terminator::Br(t, f) && out.blocks[t as int].0.len() > 0
                && out.blocks[t as int].0[0] == Inst::PushInt(x) && out.blocks[f as int].0.len() > 0
                && out.blocks[f as int].0[0] == Inst::PushInt(y)
        }),
{
    let (tb, b1) = new_block_spec(b);
    let (eb, b2) = new_block_spec(b1);
    let (nb, b3) = new_block_spec(b2);
    let t = tp_of(c, cond).unwrap();
    let (pc, bt) = new_tmp_spec(c, b3, t).unwrap();
    let b4a = lower_spec(c, bt, cond, pc).unwrap();
    assert(b4a == store_spec(emit(bt, Inst::PushBool(v)), pc));
    let (pc2, b4) = lower_into_tmp_spec(c, b3, cond).unwrap();
    assert(b4 == b4a);
    assert(b4.current == b.current);
    assert(b4.blocks.len() == b.blocks.len() + 3);
    let b5 = switch_spec(terminate_spec(load_spec(b4, pc, Type::Bool), Terminator::Br(tb, eb)), tb);
    assert(b5.blocks[b.current as int].1 == Terminator::Br(tb, eb));
    assert(b5.blocks[tb as int].0.len() == 0);
    let b6 = lower_spec(c, b5, th, dest).unwrap();
    assert(b6 == store_spec(emit(b5, Inst::PushInt(x)), dest));
    assert(b6.blocks[tb as int].0[0] == Inst::PushInt(x));
    let b7 = switch_spec(terminate_spec(b6, Terminator::Jmp(nb)), eb);
    assert(b7.blocks[eb as int].0.len() == 0);
    let b8 = lower_spec(c, b7, el, dest).unwrap();
    assert(b8 == store_spec(emit(b7, Inst::PushInt(y)), dest));
    let out = switch_spec(terminate_spec(b8, Terminator::Jmp(nb)), nb);
    assert(out == lower_if_spec(c, b, e, cond, th, Some(el), dest).unwrap());
    assert(out.blocks[b.current as int].1 == Terminator::Br(tb, eb));
    assert(out.blocks[tb as int].0[0] == Inst::PushInt(x));
    assert(out.blocks[eb as int].0[0] == Inst::PushInt(y));
}

/// `while`: a condition block branches to the body, which jumps back, or
/// to the block after.
pub open spec fn lower_while_spec(c: LowerCtx, b: BuilderV, e: ExprId, cond: ExprId, body: ExprId, dest: Place) -> Option<BuilderV>
    decreases e.0, 1int, 0int,
{
    if cond.0 >= e.0 || body.0 >= e.0 {
        None
    } else {
        let (cb, b1) = new_block_spec(b);
        let (bb, b2) = new_block_spec(b1);
        let (nb, b3) = new_block_spec(b2);
        let b4 = switch_spec(terminate_spec(b3, Terminator::Jmp(cb)), cb);
        match lower_into_tmp_spec(c, b4, cond) {
            Some((pc, b5)) => {
                let b6 = switch_spec(terminate_spec(load_spec(b5, pc, Type::Bool), Terminator::Br(bb, nb)), bb);
                match lower_spec(c, b6, body, dest) {
                    Some(b7) => Some(switch_spec(terminate_spec(b7, Terminator::Jmp(cb)), nb)),
                    None => None,
                }
            },
            None => None,
        }
    }
}

/// A `while` loop tests its condition in a block of its own, runs its body
/// while the condition holds and goes back to the test, and goes on after
/// the loop when it does not: lowering `while v { x }`, for every boolean
/// literal `v` and number literal `x`, ends the current block with a jump to
/// a test block, which ends with a branch whose true target begins by
/// pushing `x` and jumps back to the test, and whose false target is the
/// empty block where lowering goes on.
pub proof fn lemma_while_branch_targets(
    c: LowerCtx,
    b: BuilderV,
    e: ExprId,
    cond: ExprId,
    body: ExprId,
    dest: Place,
    v: bool,
    x: i64,
)
    requires
        lower_while_spec(c, b, e, cond, body, dest) is Some,
        cond.0 < c.db.exprs@.len(),
        body.0 < c.db.exprs@.len(),
        ex(c, cond) == ExprData::Bool(v),
        ex(c, body) == ExprData::Number(x),
        b.current < b.blocks.len(),
        b.blocks.len() + 3 <= usize::MAX,
    ensures
        ({
            let out = lower_while_spec(c, b, e, cond, body, dest).unwrap();
            out.blocks[b.current as int].1 matches Terminator::Jmp(k) && out.blocks[k as int].1 matches Terminator::Br(
                t,
                f,
            ) && out.blocks[t as int].0.len() > 0 && out.blocks[t as int].0[0] == Inst::PushInt(x)
                && out.blocks[t as int].1 == Terminator::Jmp(k) && f == out.current && out.blocks[f as int].0.len()
                == 0
        }),
{
    let (cb, b1) = new_block_spec(b);
    let (bb, b2) = new_block_spec(b1);
    let (nb, b3) = new_block_spec(b2);
    let b4 = switch_spec(terminate_spec(b3, Terminator::Jmp(cb)), cb);
    let t = tp_of(c, cond).unwrap();
    let (pc, bt) = new_tmp_spec(c, b4, t).unwrap();
    let b5a = lower_spec(c, bt, cond, pc).unwrap();
    assert(b5a == store_spec(emit(bt, Inst::PushBool(v)), pc));
    let (pc2, b5) = lower_into_tmp_spec(c, b4, cond).unwrap();
    assert(b5 == b5a);
    assert(b5.current == cb);
    let b6 = switch_spec(terminate_spec(load_spec(b5, pc, Type::Bool), Terminator::Br(bb, nb)), bb);
    assert(b6.blocks[bb as int].0.len() == 0);
    let b7 = lower_spec(c, b6, body, dest).unwrap();
    assert(b7 == store_spec(emit(b6, Inst::PushInt(x)), dest));
    assert(b7.current == bb);
    let out = switch_spec(terminate_spec(b7, Terminator::Jmp(cb)), nb);
    assert(out == lower_while_spec(c, b, e, cond, body, dest).unwrap());
    assert(out.blocks[b.current as int].1 == Terminator::Jmp(cb));
    assert(out.blocks[cb as int].1 == Terminator::Br(bb, nb));
    assert(out.blocks[bb as int].0[0] == Inst::PushInt(x));
    assert(out.blocks[nb as int].0.len() == 0);
}

/// Indexing: by an integer, the element is copied to `dest`; by a range,
/// `dest` gets the address of the first element and the length.
pub open spec fn lower_index_spec(c: LowerCtx, b: BuilderV, e: ExprId, a: ExprId, i: ExprId, dest: Place) -> Option<BuilderV>
    decreases e.0, 1int, 0int,
{
    if i.0 >= e.0 {
        None
    } else {
        match elem_base_spec(c, b, e, a) {
            Some((l, b1)) => match lower_into_tmp_spec(c, b1, i) {
                Some((ip, b2)) => {
                    let b3 = elem_addr_spec(b2, ip, l);
                    match tp_of(c, i) {
                        Some(ti) => match tdata(c, ti) {
                            Some(TypeDataV::Primitive(_)) => {
                                let (pl, b4) = store_ptr_spec(b3);
                                Some(copy_to_spec(b4, pl, dest, l))
                            },
                            Some(TypeDataV::Range) => match (add_offset_spec(ip, 8), add_offset_spec(dest, 8)) {
                                (Some(ip8), Some(d8)) => Some(
                                    store_spec(
                                        emit(
                                            load_spec(load_spec(store_spec(b3, dest), ip8, Type::Int64), ip, Type::Int64),
                                            Inst::Binop(Binop::Sub),
                                        ),
                                        d8,
                                    ),
                                ),
                                _ => None,
                            },
                            _ => None,
                        },
                        None => None,
                    }
                },
                None => None,
            },
            None => None,
        }
    }
}

/// Pushes the arguments `args[i..]` of a call, each as its passing
/// convention wants: nothing, one scalar, two scalars, or an address.
pub open spec fn lower_args_spec(c: LowerCtx, b: BuilderV, e: ExprId, args: Seq<ExprId>, i: int) -> Option<BuilderV>
    decreases e.0, 0int, args.len() - i,
{
    if i < 0 || i >= args.len() {
        Some(b)
    } else if args[i].0 >= e.0 {
        None
    } else {
        match lay_of(c, args[i]) {
            Some(l) => match lower_into_tmp_spec(c, b, args[i]) {
                Some((pl, b1)) => {
                    let b2 = match abi_of(l) {
                        Abi::Unit => Some(b1),
                        Abi::Scalar(t) => Some(load_spec(b1, pl, t)),
                        Abi::ScalarPair(p0, p1) => match add_offset_spec(pl, type_size(p0) as u32) {
                            Some(p2) => Some(load_spec(load_spec(b1, pl, p0), p2, p1)),
                            None => None,
                        },
                        Abi::Struct => Some(leave_addr_spec(b1, pl)),
                    };
                    match b2 {
                        Some(b3) => lower_args_spec(c, b3, e, args, i + 1),
                        None => None,
                    }
                },
                None => None,
            },
            None => None,
        }
    }
}

/// Lowers the elements `es[i..]` of a tuple to their fields of `dest`.
pub open spec fn lower_elems_spec(
    c: LowerCtx,
    b: BuilderV,
    e: ExprId,
    es: Seq<ExprId>,
    fields: Seq<(nat, LayoutV)>,
    dest: Place,
    i: int,
) -> Option<BuilderV>
    decreases e.0, 0int, es.len() - i,
{
    if i < 0 || i >= es.len() {
        Some(b)
    } else if es[i].0 >= e.0 || i >= fields.len() {
        None
    } else {
        match add_offset_spec(dest, fields[i].0 as u32) {
            Some(d) => match lower_spec(c, b, es[i], d) {
                Some(b1) => lower_elems_spec(c, b1, e, es, fields, dest, i + 1),
                None => None,
            },
            None => None,
        }
    }
}

/// Lowers the elements `es[i..]` of an array one after the other from
/// byte `x` of `dest`.
pub open spec fn lower_array_spec(
    c: LowerCtx,
    b: BuilderV,
    e: ExprId,
    es: Seq<ExprId>,
    elem_size: u32,
    dest: Place,
    x: u32,
    i: int,
) -> Option<BuilderV>
    decreases e.0, 0int, es.len() - i,
{
    if i < 0 || i >= es.len() {
        Some(b)
    } else if es[i].0 >= e.0 || x + elem_size > u32::MAX {
        None
    } else {
        match add_offset_spec(dest, x) {
            Some(d) => match lower_spec(c, b, es[i], d) {
                Some(b1) => lower_array_spec(c, b1, e, es, elem_size, dest, (x + elem_size) as u32, i + 1),
                None => None,
            },
            None => None,
        }
    }
}

/// Lowers the fields `fs[j..]` of a struct expression, each from the
/// expression given for it last, to its offset in `dest`.
pub open spec fn lower_fields_spec(
    c: LowerCtx,
    b: BuilderV,
    e: ExprId,
    fs: Seq<(Ident, (usize, TypeId))>,
    items: Seq<(Ident, ExprId)>,
    offsets: Seq<(nat, LayoutV)>,
    dest: Place,
    j: int,
) -> Option<BuilderV>
    decreases e.0, 0int, fs.len() - j,
{
    if j < 0 || j >= fs.len() {
        Some(b)
    } else {
        let ms = named(items, fs[j].0, items.len() as int);
        let k = fs[j].1.0 as int;
        if ms.len() == 0 || ms.last().0 >= e.0 || k >= offsets.len() {
            None
        } else {
            match add_offset_spec(dest, offsets[k].0 as u32) {
                Some(d) => match lower_spec(c, b, ms.last(), d) {
                    Some(b1) => lower_fields_spec(c, b1, e, fs, items, offsets, dest, j + 1),
                    None => None,
                },
                None => None,
            }
        }
    }
}


/// A function being lowered, with the types inferred for it.
pub struct Builder {
    pub blocks: Vec<Block>,
    pub current_block: usize,
    /// The places of named variables, by the index of their name.
    pub variable_map: HashMap<usize, Place>,
    /// The layouts of the local variables.
    pub variables: Vec<Layout>,
    pub func: FnDef,
    pub types: Types,
    /// By expression index, the type inferred for the expression.
    pub type_map: Vec<Option<TypeId>>,
}

impl View for Builder {
    type V = BuilderV;

    open spec fn view(&self) -> BuilderV {
        BuilderV {
            blocks: self.blocks@.map_values(|b: Block| (b.insts@, b.terminator)),
            current: self.current_block,
            vars: self.variable_map@,
            variables: self.variables@.map_values(|l: Layout| l@),
        }
    }
}

impl Builder {
    /// What lowering reads.
    pub open spec fn ctx(&self, db: Db) -> LowerCtx {
        LowerCtx { db, types: self.types@, tmap: self.type_map@ }
    }

    /// The block being filled exists, and the inferred types exist.
    pub open spec fn wf(&self, db: Db) -> bool {
        &&& self.current_block < self.blocks@.len()
        &&& layout_ctx_ok(db, self.types@)
        &&& self.type_map@.len() == db.exprs@.len()
        &&& forall|k: int|
            0 <= k < self.type_map@.len() ==> ((#[trigger] self.type_map@[k]) matches Some(t) ==> t.0 < self.types@.len())
    }

    /// This builder went on from `o`: the same function and types, and no
    /// fewer blocks.
    pub open spec fn same_ctx(&self, o: Builder) -> bool {
        &&& self.types@ == o.types@
        &&& self.type_map@ == o.type_map@
        &&& self.func == o.func
        &&& o.blocks@.len() <= self.blocks@.len()
        &&& extends(o@, self@)
    }

    /// Appends an instruction to the current block.
    pub fn push_inst(&mut self, Ghost(db): Ghost<Db>, inst: Inst)
        requires
            old(self).wf(db),
        ensures
            final(self)@ == emit(old(self)@, inst),
            final(self).wf(db),
            final(self).same_ctx(*old(self)),
    {
        let cur = self.current_block;
        let ghost bs = self.blocks@;
        self.blocks[cur].insts.push(inst);
        proof {
            assert(self@.blocks =~= emit(old(self)@, inst).blocks) by {
                assert forall|k: int| 0 <= k < bs.len() implies #[trigger] self@.blocks[k] == emit(old(self)@, inst).blocks[k] by {
                    if k != cur {
                        assert(self.blocks@[k] == bs[k]);
                    }
                }
            }
        }
    }

    fn terminate_current_block(&mut self, Ghost(db): Ghost<Db>, term: Terminator)
        requires
            old(self).wf(db),
        ensures
            final(self)@ == terminate_spec(old(self)@, term),
            final(self).wf(db),
            final(self).same_ctx(*old(self)),
    {
        let cur = self.current_block;
        let ghost bs = self.blocks@;
        self.blocks[cur].terminator = term;
        proof {
            assert(self@.blocks =~= terminate_spec(old(self)@, term).blocks) by {
                assert forall|k: int| 0 <= k < bs.len() implies #[trigger] self@.blocks[k] == terminate_spec(old(self)@, term).blocks[k] by {
                    if k != cur {
                        assert(self.blocks@[k] == bs[k]);
                    }
                }
            }
        }
    }

    /// A new empty block, and its index.
    pub fn new_block(&mut self, Ghost(db): Ghost<Db>) -> (id: usize)
        requires
            old(self).wf(db),
        ensures
            (id, final(self)@) == new_block_spec(old(self)@),
            final(self).wf(db),
            final(self).same_ctx(*old(self)),
            id == old(self).blocks@.len(),
            final(self).blocks@.len() == old(self).blocks@.len() + 1,
    {
        let id = self.blocks.len();
        let blk = Block::empty();
        assert(blk.insts@ =~= Seq::<Inst>::empty());
        self.blocks.push(blk);
        proof {
            assert(self@.blocks =~= new_block_spec(old(self)@).1.blocks);
        }
        id
    }

    /// Continues filling block `id`.
    pub fn switch_to_block(&mut self, Ghost(db): Ghost<Db>, id: usize)
        requires
            old(self).wf(db),
            id < old(self).blocks@.len(),
        ensures
            final(self)@ == switch_spec(old(self)@, id),
            final(self).wf(db),
            final(self).same_ctx(*old(self)),
    {
        self.current_block = id;
    }

    /// A new local of layout `layout`.
    pub fn new_tmp_var_layout(&mut self, Ghost(db): Ghost<Db>, layout: Layout) -> (p: Place)
        requires
            old(self).wf(db),
        ensures
            (p, final(self)@) == new_tmp_layout_spec(old(self)@, layout@),
            final(self).wf(db),
            final(self).same_ctx(*old(self)),
    {
        let id = self.variables.len();
        let ghost lv = layout@;
        self.variables.push(layout);
        proof {
            assert(self@.variables =~= old(self)@.variables.push(lv));
        }
        Place::Local { id, offset: 0 }
    }

    /// The type recorded for `e`.
    pub fn get_tp(&self, Ghost(db): Ghost<Db>, e: ExprId) -> (t: TypeId)
        requires
            self.wf(db),
            tp_of(self.ctx(db), e) is Some,
        ensures
            t == tp_of(self.ctx(db), e).unwrap(),
            t.0 < self.types@.len(),
    {
        self.type_map[e.0].unwrap()
    }

    /// The type recorded for `e`, if there is one.
    fn tp_at(&self, Ghost(db): Ghost<Db>, e: ExprId) -> (r: Option<TypeId>)
        requires
            self.wf(db),
        ensures
            r == tp_of(self.ctx(db), e),
            r matches Some(t) ==> t.0 < self.types@.len(),
    {
        if e.0 < self.type_map.len() {
            self.type_map[e.0]
        } else {
            None
        }
    }

    /// The layout of type `tp`, if it has one.
    fn layout_at(&self, db: &Db, tp: TypeId) -> (r: Option<Layout>)
        requires
            self.wf(*db),
        ensures
            match r {
                Some(l) => lay(self.ctx(*db), tp) == Some(l@),
                None => lay(self.ctx(*db), tp) is None,
            },
    {
        if tp.0 < self.types.data.len() {
            let fuel = self.types.data.len() as u64;
            crate::tp::layout_fuel(db, &self.types, tp, fuel)
        } else {
            None
        }
    }

    /// The layout of the type of `e`, if it has one.
    fn layout_of_expr(&self, db: &Db, e: ExprId) -> (r: Option<Layout>)
        requires
            self.wf(*db),
        ensures
            match r {
                Some(l) => lay_of(self.ctx(*db), e) == Some(l@),
                None => lay_of(self.ctx(*db), e) is None,
            },
    {
        match self.tp_at(Ghost(*db), e) {
            Some(t) => self.layout_at(db, t),
            None => None,
        }
    }

    /// The layout of type `tp`.
    pub fn get_layout_of_type(&self, db: &Db, tp: TypeId) -> (l: Layout)
        requires
            self.wf(*db),
            lay(self.ctx(*db), tp) is Some,
        ensures
            l@ == lay(self.ctx(*db), tp).unwrap(),
    {
        self.layout_at(db, tp).unwrap()
    }

    /// The layout of the type of `e`.
    pub fn get_layout_of_expr(&self, db: &Db, e: ExprId) -> (l: Layout)
        requires
            self.wf(*db),
            lay_of(self.ctx(*db), e) is Some,
        ensures
            l@ == lay_of(self.ctx(*db), e).unwrap(),
    {
        self.layout_of_expr(db, e).unwrap()
    }

    /// A new local for a value of type `tp`.
    pub fn new_tmp_var(&mut self, db: &Db, tp: TypeId) -> (p: Place)
        requires
            old(self).wf(*db),
            new_tmp_spec(old(self).ctx(*db), old(self)@, tp) is Some,
        ensures
            (p, final(self)@) == new_tmp_spec(old(self).ctx(*db), old(self)@, tp).unwrap(),
            final(self).wf(*db),
            final(self).same_ctx(*old(self)),
    {
        let layout = self.get_layout_of_type(db, tp);
        self.new_tmp_var_layout(Ghost(*db), layout)
    }

    /// A new local for variable `x`, bound to it.
    pub fn new_var(&mut self, db: &Db, x: Ident, tp: TypeId) -> (p: Place)
        requires
            old(self).wf(*db),
            new_tmp_spec(old(self).ctx(*db), old(self)@, tp) is Some,
        ensures
            p == new_tmp_spec(old(self).ctx(*db), old(self)@, tp).unwrap().0,
            final(self)@ == (BuilderV { vars: new_tmp_spec(old(self).ctx(*db), old(self)@, tp).unwrap().1.vars.insert(x.0, p), ..new_tmp_spec(old(self).ctx(*db), old(self)@, tp).unwrap().1 }),
            final(self).wf(*db),
            final(self).same_ctx(*old(self)),
    {
        let id = self.new_tmp_var(db, tp);
        proof {
            broadcast use vstd::std_specs::hash::group_hash_axioms;
        }
        self.variable_map.insert(x.0, id);
        id
    }

    /// The place of variable `x`.
    pub fn get_var(&self, x: Ident) -> (p: Place)
        requires
            get_var_spec(self@.vars, x) is Some,
        ensures
            p == get_var_spec(self@.vars, x).unwrap(),
    {
        self.lookup_var(x).unwrap()
    }

    /// The place of variable `x`, if it is bound.
    fn lookup_var(&self, x: Ident) -> (r: Option<Place>)
        ensures
            r == get_var_spec(self@.vars, x),
    {
        proof {
            broadcast use vstd::std_specs::hash::group_hash_axioms;
        }
        match self.variable_map.get(&x.0) {
            Some(p) => Some(*p),
            None => None,
        }
    }

    /// Pops a pointer into a new local, and gives the place it points to.
    fn store_ptr(&mut self, Ghost(db): Ghost<Db>) -> (p: Place)
        requires
            old(self).wf(db),
        ensures
            (p, final(self)@) == store_ptr_spec(old(self)@),
            final(self).wf(db),
            final(self).same_ctx(*old(self)),
    {
        let tmp = self.new_tmp_var_layout(Ghost(db), Layout::ptr());
        tmp.store(Ghost(db), self);
        Place::Ref { local_id: tmp.as_local_id().unwrap(), offset: 0 }
    }
}

impl Layout {
    /// The primitive type of this layout, if it is one.
    pub fn as_primitive(&self) -> (r: Option<Type>)
        ensures
            r == as_primitive(self@),
    {
        match &self.fields {
            crate::bytecode::Fields::Primitive(t) => Some(*t),
            _ => None,
        }
    }
}

impl Place {
    /// This place moved `x` bytes further.
    pub fn add_offset(self, x: u32) -> (p: Self)
        requires
            add_offset_spec(self, x) is Some,
        ensures
            p == add_offset_spec(self, x).unwrap(),
    {
        self.checked_offset(x).unwrap()
    }

    /// This place moved `x` bytes further, if the offset fits.
    fn checked_offset(self, x: u32) -> (r: Option<Self>)
        ensures
            r == add_offset_spec(self, x),
    {
        match self {
            Place::Local { id, offset } => match offset.checked_add(x) {
                Some(o) => Some(Place::Local { id, offset: o }),
                None => None,
            },
            Place::Ref { local_id, offset } => match offset.checked_add(x) {
                Some(o) => Some(Place::Ref { local_id, offset: o }),
                None => None,
            },
        }
    }

    /// Emits instructions that load the value of type `tp` here onto the
    /// stack.
    pub fn load(self, Ghost(db): Ghost<Db>, b: &mut Builder, tp: Type)
        requires
            old(b).wf(db),
        ensures
            final(b)@ == load_spec(old(b)@, self, tp),
            final(b).wf(db),
            final(b).same_ctx(*old(b)),
    {
        match self {
            Place::Local { id, offset } => {
                b.push_inst(Ghost(db), Inst::Get { id, offset, tp });
            },
            Place::Ref { local_id, offset } => {
                b.push_inst(Ghost(db), Inst::Get { id: local_id, offset: 0, tp: Type::Ptr });
                b.push_inst(Ghost(db), Inst::Load { offset, tp });
            },
        }
    }

    /// Emits instructions that store the top of the stack here.
    pub fn store(self, Ghost(db): Ghost<Db>, b: &mut Builder)
        requires
            old(b).wf(db),
        ensures
            final(b)@ == store_spec(old(b)@, self),
            final(b).wf(db),
            final(b).same_ctx(*old(b)),
    {
        match self {
            Place::Local { id, offset } => {
                b.push_inst(Ghost(db), Inst::SetLocal { id, offset });
            },
            Place::Ref { local_id, offset } => {
                b.push_inst(Ghost(db), Inst::Get { id: local_id, offset: 0, tp: Type::Ptr });
                b.push_inst(Ghost(db), Inst::Store { offset });
            },
        }
    }

    /// Emits instructions that push the address of this place.
    pub fn leave_addr(self, Ghost(db): Ghost<Db>, b: &mut Builder)
        requires
            old(b).wf(db),
        ensures
            final(b)@ == leave_addr_spec(old(b)@, self),
            final(b).wf(db),
            final(b).same_ctx(*old(b)),
    {
        match self {
            Place::Local { id, offset } => b.push_inst(Ghost(db), Inst::LocalAddr { id, offset }),
            Place::Ref { local_id, offset } => {
                b.push_inst(Ghost(db), Inst::Get { id: local_id, offset: 0, tp: Type::Ptr });
                b.push_inst(Ghost(db), Inst::PushInt(offset as i64));
                b.push_inst(Ghost(db), Inst::CapOffset)
            },
        };
    }

    /// Emits instructions that copy a value of layout `layout` from here
    /// to `dest`.
    pub fn copy_to(self, Ghost(db): Ghost<Db>, b: &mut Builder, dest: Self, layout: &Layout)
        requires
            old(b).wf(db),
        ensures
            final(b)@ == copy_to_spec(old(b)@, self, dest, layout@),
            final(b).wf(db),
            final(b).same_ctx(*old(b)),
    {
        dest.leave_addr(Ghost(db), b);
        self.leave_addr(Ghost(db), b);
        let size = layout.size();
        b.push_inst(Ghost(db), Inst::MemCopy { size });
    }

    /// The local of a place in a local.
    pub fn as_local_id(self) -> (r: Option<usize>)
        ensures
            r == (match self {
                Place::Local { id, .. } => Some(id),
                Place::Ref { .. } => None::<usize>,
            }),
    {
        match self {
            Place::Local { id, .. } => Some(id),
            Place::Ref { .. } => None,
        }
    }
}

impl Builder {
    /// The offset of field `field_name` in a value of type `tp`.
    pub fn get_offset(&self, db: &Db, tp: TypeId, field_name: Ident) -> (off: u32)
        requires
            self.wf(*db),
            field_name.0 < db.idents@.len(),
            get_offset_spec(self.ctx(*db), tp, field_name) is Some,
        ensures
            off == get_offset_spec(self.ctx(*db), tp, field_name).unwrap(),
    {
        self.offset_at(db, tp, field_name).unwrap()
    }

    /// The offset of field `field_name` in a value of type `tp`, if the
    /// type has that field.
    fn offset_at(&self, db: &Db, tp: TypeId, field_name: Ident) -> (r: Option<u32>)
        requires
            self.wf(*db),
            field_name.0 < db.idents@.len(),
        ensures
            r == get_offset_spec(self.ctx(*db), tp, field_name),
    {
        if tp.0 >= self.types.data.len() {
            return None;
        }
        match self.types.get(tp) {
            TypeData::Slice(_, _) => {
                if crate::tp::is_len(db.idents[field_name.0].as_str()) {
                    Some(8)
                } else {
                    None
                }
            },
            TypeData::Var(sf, tv) => {
                if sf.0 >= db.files.len() {
                    return None;
                }
                match crate::resolve::get_item(db, sf, tv) {
                    Some(crate::resolve::Item::Type { .. }) => {},
                    _ => return None,
                }
                let fs = struct_fields(db, sf, tv);
                let f = match field_lookup_exec(&fs, field_name) {
                    Some(f) => f,
                    None => return None,
                };
                let layout = match self.layout_at(db, tp) {
                    Some(l) => l,
                    None => return None,
                };
                match &layout.fields {
                    crate::bytecode::Fields::Struct { fields } => {
                        if f.0 < fields.len() {
                            Some(fields[f.0].0)
                        } else {
                            None
                        }
                    },
                    _ => None,
                }
            },
            _ => None,
        }
    }

    /// Binds the names of pattern `pat` to copies of the value of type
    /// `tp` at `place`.
    pub fn lower_pat(&mut self, db: &Db, pat: PatternId, tp: TypeId, place: Place)
        requires
            old(self).wf(*db),
            lower_pat_spec(old(self).ctx(*db), old(self)@, pat, tp, place) is Some,
        ensures
            final(self)@ == lower_pat_spec(old(self).ctx(*db), old(self)@, pat, tp, place).unwrap(),
            final(self).wf(*db),
            final(self).same_ctx(*old(self)),
    {
        let _ = self.try_lower_pat(db, pat, tp, place);
    }

    /// Binds the names of pattern `pat`, as `lower_pat` does; false where
    /// the pattern cannot be lowered.
    fn try_lower_pat(&mut self, db: &Db, pat: PatternId, tp: TypeId, place: Place) -> (ok: bool)
        requires
            old(self).wf(*db),
        ensures
            ok == lower_pat_spec(old(self).ctx(*db), old(self)@, pat, tp, place) is Some,
            ok ==> final(self)@ == lower_pat_spec(old(self).ctx(*db), old(self)@, pat, tp, place).unwrap(),
            final(self).wf(*db),
            final(self).same_ctx(*old(self)),
        decreases pat.0, 1int, 0int,
    {
        if pat.0 >= db.patterns.len() {
            return false;
        }
        match &db.patterns[pat.0].data {
            PatternData::Wildcard => true,
            PatternData::Var(name, _) => {
                let layout = match self.layout_at(db, tp) {
                    Some(l) => l,
                    None => return false,
                };
                let id = self.new_var(db, *name, tp);
                place.copy_to(Ghost(*db), self, id, &layout);
                true
            },
            PatternData::Tuple(pats) => {
                if tp.0 >= self.types.data.len() {
                    return false;
                }
                match self.types.get(tp) {
                    TypeData::Tuple(tps) => {
                        let n = if pats.len() <= tps.len() { pats.len() } else { tps.len() };
                        self.lower_pats(db, pat, pats, &tps, place, n)
                    },
                    _ => false,
                }
            },
        }
    }

    fn lower_pats(&mut self, db: &Db, p: PatternId, ps: &Vec<PatternId>, tps: &Vec<TypeId>, place: Place, i: usize) -> (ok: bool)
        requires
            old(self).wf(*db),
        ensures
            ok == lower_pats_spec(old(self).ctx(*db), old(self)@, p, ps@, tps@, place, i as int) is Some,
            ok ==> final(self)@ == lower_pats_spec(old(self).ctx(*db), old(self)@, p, ps@, tps@, place, i as int).unwrap(),
            final(self).wf(*db),
            final(self).same_ctx(*old(self)),
        decreases p.0, 0int, i,
    {
        if i == 0 || i > ps.len() || i > tps.len() {
            return true;
        }
        if ps[i - 1].0 >= p.0 {
            return false;
        }
        if !self.try_lower_pat(db, ps[i - 1], tps[i - 1], place) {
            return false;
        }
        self.lower_pats(db, p, ps, tps, place, i - 1)
    }

    /// Lowers `e` into a new local, and gives its place.
    pub fn lower_into_tmp(&mut self, db: &Db, e: ExprId) -> (p: Place)
        requires
            old(self).wf(*db),
            lower_into_tmp_spec(old(self).ctx(*db), old(self)@, e) is Some,
        ensures
            (p, final(self)@) == lower_into_tmp_spec(old(self).ctx(*db), old(self)@, e).unwrap(),
            final(self).wf(*db),
            final(self).same_ctx(*old(self)),
    {
        self.try_lower_into_tmp(db, e).unwrap()
    }

    /// Lowers `e` into a new local, as `lower_into_tmp` does; none where
    /// `e` cannot be lowered.
    fn try_lower_into_tmp(&mut self, db: &Db, e: ExprId) -> (r: Option<Place>)
        requires
            old(self).wf(*db),
        ensures
            match r {
                Some(p) => lower_into_tmp_spec(old(self).ctx(*db), old(self)@, e) == Some((p, final(self)@)),
                None => lower_into_tmp_spec(old(self).ctx(*db), old(self)@, e) is None,
            },
            final(self).wf(*db),
            final(self).same_ctx(*old(self)),
        decreases e.0, 3int, 0int,
    {
        let tp = match self.tp_at(Ghost(*db), e) {
            Some(t) => t,
            None => return None,
        };
        let layout = match self.layout_at(db, tp) {
            Some(l) => l,
            None => return None,
        };
        let x = self.new_tmp_var_layout(Ghost(*db), layout);
        if self.try_lower(db, e, x) {
            Some(x)
        } else {
            None
        }
    }

    fn elem_base(&mut self, db: &Db, e: ExprId, a: ExprId) -> (r: Option<Layout>)
        requires
            old(self).wf(*db),
        ensures
            match r {
                Some(l) => elem_base_spec(old(self).ctx(*db), old(self)@, e, a) == Some((l@, final(self)@)),
                None => elem_base_spec(old(self).ctx(*db), old(self)@, e, a) is None,
            },
            final(self).wf(*db),
            final(self).same_ctx(*old(self)),
        decreases e.0, 0int, 0int,
    {
        if a.0 >= e.0 {
            return None;
        }
        let g = Ghost(*db);
        let ta = match self.tp_at(g, a) {
            Some(t) => t,
            None => return None,
        };
        match self.types.get(ta) {
            TypeData::Slice(t, _) => {
                let x = match self.try_lower_into_tmp(db, a) {
                    Some(x) => x,
                    None => return None,
                };
                let l = match self.layout_at(db, t) {
                    Some(l) => l,
                    None => return None,
                };
                x.load(g, self, Type::Ptr);
                Some(l)
            },
            TypeData::Array(_, t) => {
                let pl = match self.try_lower_place(db, a) {
                    Some(Some(p)) => p,
                    _ => return None,
                };
                let l = match self.layout_at(db, t) {
                    Some(l) => l,
                    None => return None,
                };
                pl.leave_addr(g, self);
                Some(l)
            },
            _ => None,
        }
    }

    fn elem_addr(&mut self, Ghost(db): Ghost<Db>, idx: Place, l: &Layout)
        requires
            old(self).wf(db),
        ensures
            final(self)@ == elem_addr_spec(old(self)@, idx, l@),
            final(self).wf(db),
            final(self).same_ctx(*old(self)),
    {
        idx.load(Ghost(db), self, Type::Int64);
        self.push_inst(Ghost(db), Inst::PushInt(l.size() as i64));
        self.push_inst(Ghost(db), Inst::Binop(Binop::Mul));
        self.push_inst(Ghost(db), Inst::CapOffset);
    }

    /// The place that `e` denotes, if it denotes one.
    pub fn lower_place(&mut self, db: &Db, e: ExprId) -> (r: Option<Place>)
        requires
            old(self).wf(*db),
            lower_place_spec(old(self).ctx(*db), old(self)@, e) is Some,
        ensures
            (r, final(self)@) == lower_place_spec(old(self).ctx(*db), old(self)@, e).unwrap(),
            final(self).wf(*db),
            final(self).same_ctx(*old(self)),
    {
        self.try_lower_place(db, e).unwrap()
    }

    /// The place that `e` denotes, as `lower_place` gives it; none where
    /// `e` cannot be lowered.
    fn try_lower_place(&mut self, db: &Db, e: ExprId) -> (r: Option<Option<Place>>)
        requires
            old(self).wf(*db),
        ensures
            match r {
                Some(p) => lower_place_spec(old(self).ctx(*db), old(self)@, e) == Some((p, final(self)@)),
                None => lower_place_spec(old(self).ctx(*db), old(self)@, e) is None,
            },
            final(self).wf(*db),
            final(self).same_ctx(*old(self)),
        decreases e.0, 1int, 0int,
    {
        let g = Ghost(*db);
        if e.0 >= db.exprs.len() {
            return None;
        }
        match &db.exprs[e.0].data {
            ExprData::Error => None,
            ExprData::Var(x) => match self.lookup_var(*x) {
                Some(p) => Some(Some(p)),
                None => None,
            },
            ExprData::Field(a, name) => {
                if a.0 >= e.0 {
                    return None;
                }
                proof {
                    assert(crate::ast::expr_idents(db.exprs@[e.0 as int].data)[0] == *name);
                }
                let ta = match self.tp_at(g, *a) {
                    Some(t) => t,
                    None => return None,
                };
                let off = match self.offset_at(db, ta, *name) {
                    Some(o) => o,
                    None => return None,
                };
                let pl = match self.try_lower_place(db, *a) {
                    Some(Some(p)) => p,
                    _ => return None,
                };
                match pl.checked_offset(off) {
                    Some(p2) => Some(Some(p2)),
                    None => None,
                }
            },
            ExprData::Let(p, a, body) => {
                if a.0 >= e.0 || body.0 >= e.0 {
                    return None;
                }
                let pl = match self.try_lower_into_tmp(db, *a) {
                    Some(x) => x,
                    None => return None,
                };
                let ta = match self.tp_at(g, *a) {
                    Some(t) => t,
                    None => return None,
                };
                if !self.try_lower_pat(db, *p, ta, pl) {
                    return None;
                }
                self.try_lower_place(db, *body)
            },
            ExprData::Deref(a) => {
                if a.0 >= e.0 {
                    return None;
                }
                match self.try_lower_into_tmp(db, *a) {
                    Some(Place::Local { id, .. }) => Some(Some(Place::Ref { local_id: id, offset: 0 })),
                    _ => None,
                }
            },
            ExprData::Sequence(a, body) => {
                if a.0 >= e.0 || body.0 >= e.0 {
                    return None;
                }
                match self.try_lower_into_tmp(db, *a) {
                    Some(_) => self.try_lower_place(db, *body),
                    None => None,
                }
            },
            ExprData::Index(a, i) => {
                if i.0 >= e.0 {
                    return None;
                }
                let ti = match self.tp_at(g, *i) {
                    Some(t) => t,
                    None => return None,
                };
                match self.types.get(ti) {
                    TypeData::Primitive(_) => {
                        let l = match self.elem_base(db, e, *a) {
                            Some(l) => l,
                            None => return None,
                        };
                        let ip = match self.try_lower_into_tmp(db, *i) {
                            Some(x) => x,
                            None => return None,
                        };
                        self.elem_addr(g, ip, &l);
                        let pl = self.store_ptr(g);
                        Some(Some(pl))
                    },
                    TypeData::Range => Some(None),
                    _ => None,
                }
            },
            _ => Some(None),
        }
    }
}

impl Builder {
    /// Lowers `e` so that its value ends up at `dest`; returns the place
    /// that `e` had before its value was copied there, if it had one.
    pub fn lower(&mut self, db: &Db, e: ExprId, dest: Place) -> (r: Option<Place>)
        requires
            old(self).wf(*db),
            lower_spec(old(self).ctx(*db), old(self)@, e, dest) is Some,
        ensures
            final(self)@ == lower_spec(old(self).ctx(*db), old(self)@, e, dest).unwrap(),
            r == place_of_spec(old(self).ctx(*db), old(self)@, e),
            final(self).wf(*db),
            final(self).same_ctx(*old(self)),
    {
        match self.lower_traced(db, e, dest) {
            Some(p) => p,
            None => None,
        }
    }

    /// Lowers `e` to `dest` as `lower` does, and gives the place that `e`
    /// had; none where `e` cannot be lowered.
    fn lower_traced(&mut self, db: &Db, e: ExprId, dest: Place) -> (r: Option<Option<Place>>)
        requires
            old(self).wf(*db),
        ensures
            r is Some == lower_spec(old(self).ctx(*db), old(self)@, e, dest) is Some,
            r is Some ==> final(self)@ == lower_spec(old(self).ctx(*db), old(self)@, e, dest).unwrap(),
            r matches Some(p) ==> p == place_of_spec(old(self).ctx(*db), old(self)@, e),
            final(self).wf(*db),
            final(self).same_ctx(*old(self)),
        decreases e.0,
    {
        let g = Ghost(*db);
        if e.0 >= db.exprs.len() {
            return if self.try_lower(db, e, dest) { Some(None) } else { None };
        }
        match &db.exprs[e.0].data {
            ExprData::Var(x) => {
                let src = self.lookup_var(*x);
                if self.try_lower(db, e, dest) { Some(src) } else { None }
            },
            ExprData::Field(_, _) | ExprData::Deref(_) => {
                if let ExprData::Deref(a) = &db.exprs[e.0].data {
                    if a.0 >= e.0 {
                        return None;
                    }
                }
                let layout = match self.layout_of_expr(db, e) {
                    Some(l) => l,
                    None => return None,
                };
                match self.try_lower_place(db, e) {
                    Some(Some(src)) => {
                        src.copy_to(g, self, dest, &layout);
                        Some(Some(src))
                    },
                    _ => None,
                }
            },
            ExprData::Index(a, i) => self.lower_index(db, e, *a, *i, dest),
            ExprData::Let(p, a, body) => {
                if a.0 >= e.0 || body.0 >= e.0 {
                    return None;
                }
                let place = match self.try_lower_into_tmp(db, *a) {
                    Some(x) => x,
                    None => return None,
                };
                let ta = match self.tp_at(g, *a) {
                    Some(t) => t,
                    None => return None,
                };
                if !self.try_lower_pat(db, *p, ta, place) {
                    return None;
                }
                self.lower_traced(db, *body, dest)
            },
            ExprData::Sequence(a, body) => {
                if a.0 >= e.0 || body.0 >= e.0 {
                    return None;
                }
                match self.try_lower_into_tmp(db, *a) {
                    Some(_) => self.lower_traced(db, *body, dest),
                    None => None,
                }
            },
            _ => if self.try_lower(db, e, dest) { Some(None) } else { None },
        }
    }

    /// Lowers `e` to `dest` as `lower` does; false where `e` cannot be
    /// lowered.
    #[verifier::spinoff_prover]
    #[verifier::rlimit(80)]
    fn try_lower(&mut self, db: &Db, e: ExprId, dest: Place) -> (ok: bool)
        requires
            old(self).wf(*db),
        ensures
            ok == lower_spec(old(self).ctx(*db), old(self)@, e, dest) is Some,
            ok ==> final(self)@ == lower_spec(old(self).ctx(*db), old(self)@, e, dest).unwrap(),
            final(self).wf(*db),
            final(self).same_ctx(*old(self)),
        decreases e.0, 2int, 0int,
    {
        let g = Ghost(*db);
        if e.0 >= db.exprs.len() {
            return false;
        }
        match &db.exprs[e.0].data {
            ExprData::Number(n) => {
                self.push_inst(g, Inst::PushInt(*n));
                dest.store(g, self);
                true
            },
            ExprData::Bool(v) => {
                self.push_inst(g, Inst::PushBool(*v));
                dest.store(g, self);
                true
            },
            ExprData::Binop(op, x, y) => {
                if x.0 >= e.0 || y.0 >= e.0 {
                    return false;
                }
                let px = match self.try_lower_into_tmp(db, *x) {
                    Some(p) => p,
                    None => return false,
                };
                let py = match self.try_lower_into_tmp(db, *y) {
                    Some(p) => p,
                    None => return false,
                };
                let lx = match self.layout_of_expr(db, *x) {
                    Some(l) => l,
                    None => return false,
                };
                let ly = match self.layout_of_expr(db, *y) {
                    Some(l) => l,
                    None => return false,
                };
                let tx = match lx.as_primitive() {
                    Some(t) => t,
                    None => return false,
                };
                let ty = match ly.as_primitive() {
                    Some(t) => t,
                    None => return false,
                };
                px.load(g, self, tx);
                py.load(g, self, ty);
                self.push_inst(g, Inst::Binop(*op));
                dest.store(g, self);
                true
            },
            ExprData::Unop(op, x) => {
                if x.0 >= e.0 {
                    return false;
                }
                let px = match self.try_lower_into_tmp(db, *x) {
                    Some(p) => p,
                    None => return false,
                };
                let lx = match self.layout_of_expr(db, *x) {
                    Some(l) => l,
                    None => return false,
                };
                let tx = match lx.as_primitive() {
                    Some(t) => t,
                    None => return false,
                };
                px.load(g, self, tx);
                self.push_inst(g, Inst::Unop(*op));
                dest.store(g, self);
                true
            },
            ExprData::Let(p, a, body) => {
                if a.0 >= e.0 || body.0 >= e.0 {
                    return false;
                }
                let place = match self.try_lower_into_tmp(db, *a) {
                    Some(x) => x,
                    None => return false,
                };
                let ta = match self.tp_at(g, *a) {
                    Some(t) => t,
                    None => return false,
                };
                if !self.try_lower_pat(db, *p, ta, place) {
                    return false;
                }
                self.try_lower(db, *body, dest)
            },
            ExprData::Var(x) => {
                let layout = match self.layout_of_expr(db, e) {
                    Some(l) => l,
                    None => return false,
                };
                let src = match self.lookup_var(*x) {
                    Some(p) => p,
                    None => return false,
                };
                src.copy_to(g, self, dest, &layout);
                true
            },
            ExprData::FnCall(f, args) => self.lower_call(db, e, *f, args, dest),
            ExprData::If(cond, th, el) => self.lower_if(db, e, *cond, *th, *el, dest),
            ExprData::While(cond, body) => self.lower_while(db, e, *cond, *body, dest),
            ExprData::Assign(a, v) => {
                if a.0 >= e.0 || v.0 >= e.0 {
                    return false;
                }
                match self.try_lower_place(db, *a) {
                    Some(Some(pl)) => self.try_lower(db, *v, pl),
                    _ => false,
                }
            },
            ExprData::Deref(a) => {
                if a.0 >= e.0 {
                    return false;
                }
                let layout = match self.layout_of_expr(db, e) {
                    Some(l) => l,
                    None => return false,
                };
                match self.try_lower_place(db, e) {
                    Some(Some(pl)) => {
                        pl.copy_to(g, self, dest, &layout);
                        true
                    },
                    _ => false,
                }
            },
            ExprData::AddressOf(a) => {
                if a.0 >= e.0 {
                    return false;
                }
                let pl = match self.try_lower_place(db, *a) {
                    Some(Some(p)) => p,
                    Some(None) => match self.try_lower_into_tmp(db, *a) {
                        Some(p) => p,
                        None => return false,
                    },
                    None => return false,
                };
                pl.leave_addr(g, self);
                dest.store(g, self);
                true
            },
            ExprData::Tuple(es) => {
                let l = match self.layout_of_expr(db, e) {
                    Some(l) => l,
                    None => return false,
                };
                match &l.fields {
                    crate::bytecode::Fields::Struct { .. } => self.lower_elems(db, e, es, &l, dest, 0),
                    _ => false,
                }
            },
            ExprData::Sequence(a, body) => {
                if a.0 >= e.0 || body.0 >= e.0 {
                    return false;
                }
                match self.try_lower_into_tmp(db, *a) {
                    Some(_) => self.try_lower(db, *body, dest),
                    None => false,
                }
            },
            ExprData::Struct(_, items) => {
                let t = match self.tp_at(g, e) {
                    Some(t) => t,
                    None => return false,
                };
                let l = match self.layout_of_expr(db, e) {
                    Some(l) => l,
                    None => return false,
                };
                match self.types.get(t) {
                    TypeData::Var(sf, tv) => {
                        match &l.fields {
                            crate::bytecode::Fields::Struct { .. } => {},
                            _ => return false,
                        }
                        if sf.0 >= db.files.len() {
                            return false;
                        }
                        match crate::resolve::get_item(db, sf, tv) {
                            Some(crate::resolve::Item::Type { .. }) => {},
                            _ => return false,
                        }
                        let fs = struct_fields(db, sf, tv);
                        self.lower_fields(db, e, &fs, items, &l, dest, 0)
                    },
                    _ => false,
                }
            },
            ExprData::Field(_, _) => {
                let layout = match self.layout_of_expr(db, e) {
                    Some(l) => l,
                    None => return false,
                };
                match self.try_lower_place(db, e) {
                    Some(Some(src)) => {
                        src.copy_to(g, self, dest, &layout);
                        true
                    },
                    _ => false,
                }
            },
            ExprData::Array(es) => {
                let l = match self.layout_of_expr(db, e) {
                    Some(l) => l,
                    None => return false,
                };
                match &l.fields {
                    crate::bytecode::Fields::Array { stride, .. } => {
                        let elem_size = stride.size() as u32;
                        proof {
                            assert(l@ == crate::bytecode::layout_view(l));
                            assert(l@.fields->stride == Box::new(crate::bytecode::layout_view(**stride)));
                        }
                        self.lower_array(db, e, es, elem_size, dest, 0, 0)
                    },
                    _ => false,
                }
            },
            ExprData::Index(a, i) => match self.lower_index(db, e, *a, *i, dest) {
                Some(_) => true,
                None => false,
            },
            ExprData::Range(x, y) => {
                if x.0 >= e.0 || y.0 >= e.0 {
                    return false;
                }
                if !self.try_lower(db, *x, dest) {
                    return false;
                }
                match dest.checked_offset(8) {
                    Some(d8) => self.try_lower(db, *y, d8),
                    None => false,
                }
            },
            _ => false,
        }
    }

    fn lower_args(&mut self, db: &Db, e: ExprId, args: &Vec<ExprId>, i: usize) -> (ok: bool)
        requires
            old(self).wf(*db),
        ensures
            ok == lower_args_spec(old(self).ctx(*db), old(self)@, e, args@, i as int) is Some,
            ok ==> final(self)@ == lower_args_spec(old(self).ctx(*db), old(self)@, e, args@, i as int).unwrap(),
            final(self).wf(*db),
            final(self).same_ctx(*old(self)),
        decreases e.0, 0int, args@.len() - i,
    {
        if i >= args.len() {
            return true;
        }
        if args[i].0 >= e.0 {
            return false;
        }
        let g = Ghost(*db);
        let l = match self.layout_of_expr(db, args[i]) {
            Some(l) => l,
            None => return false,
        };
        let pl = match self.try_lower_into_tmp(db, args[i]) {
            Some(p) => p,
            None => return false,
        };
        match l.abi() {
            Abi::Unit => {},
            Abi::Scalar(t) => pl.load(g, self, t),
            Abi::ScalarPair(p0, p1) => {
                let p2 = match pl.checked_offset(p0.size()) {
                    Some(p) => p,
                    None => return false,
                };
                pl.load(g, self, p0);
                p2.load(g, self, p1);
            },
            Abi::Struct => pl.leave_addr(g, self),
        }
        self.lower_args(db, e, args, i + 1)
    }

    fn lower_elems(&mut self, db: &Db, e: ExprId, es: &Vec<ExprId>, l: &Layout, dest: Place, i: usize) -> (ok: bool)
        requires
            old(self).wf(*db),
            l@.fields is Struct,
        ensures
            ok == lower_elems_spec(old(self).ctx(*db), old(self)@, e, es@, l@.fields->fields, dest, i as int) is Some,
            ok ==> final(self)@ == lower_elems_spec(old(self).ctx(*db), old(self)@, e, es@, l@.fields->fields, dest, i as int).unwrap(),
            final(self).wf(*db),
            final(self).same_ctx(*old(self)),
        decreases e.0, 0int, es@.len() - i,
    {
        if i >= es.len() {
            return true;
        }
        let off = match &l.fields {
            crate::bytecode::Fields::Struct { fields } => {
                if i >= fields.len() {
                    return false;
                }
                fields[i].0
            },
            _ => return false,
        };
        if es[i].0 >= e.0 {
            return false;
        }
        let d = match dest.checked_offset(off) {
            Some(d) => d,
            None => return false,
        };
        if !self.try_lower(db, es[i], d) {
            return false;
        }
        self.lower_elems(db, e, es, l, dest, i + 1)
    }

    fn lower_array(&mut self, db: &Db, e: ExprId, es: &Vec<ExprId>, elem_size: u32, dest: Place, x: u32, i: usize) -> (ok: bool)
        requires
            old(self).wf(*db),
        ensures
            ok == lower_array_spec(old(self).ctx(*db), old(self)@, e, es@, elem_size, dest, x, i as int) is Some,
            ok ==> final(self)@ == lower_array_spec(old(self).ctx(*db), old(self)@, e, es@, elem_size, dest, x, i as int).unwrap(),
            final(self).wf(*db),
            final(self).same_ctx(*old(self)),
        decreases e.0, 0int, es@.len() - i,
    {
        if i >= es.len() {
            return true;
        }
        if es[i].0 >= e.0 {
            return false;
        }
        let x2 = match x.checked_add(elem_size) {
            Some(v) => v,
            None => return false,
        };
        let d = match dest.checked_offset(x) {
            Some(d) => d,
            None => return false,
        };
        if !self.try_lower(db, es[i], d) {
            return false;
        }
        self.lower_array(db, e, es, elem_size, dest, x2, i + 1)
    }

    fn lower_fields(
        &mut self,
        db: &Db,
        e: ExprId,
        fs: &Vec<(Ident, (usize, TypeId))>,
        items: &Vec<(Ident, ExprId)>,
        l: &Layout,
        dest: Place,
        j: usize,
    ) -> (ok: bool)
        requires
            old(self).wf(*db),
            l@.fields is Struct,
        ensures
            ok == lower_fields_spec(old(self).ctx(*db), old(self)@, e, fs@, items@, l@.fields->fields, dest, j as int) is Some,
            ok ==> final(self)@ == lower_fields_spec(old(self).ctx(*db), old(self)@, e, fs@, items@, l@.fields->fields, dest, j as int).unwrap(),
            final(self).wf(*db),
            final(self).same_ctx(*old(self)),
        decreases e.0, 0int, fs@.len() - j,
    {
        if j >= fs.len() {
            return true;
        }
        let ms = crate::tp::named_exec(items, fs[j].0);
        let k = fs[j].1.0;
        if ms.len() == 0 || ms[ms.len() - 1].0 >= e.0 {
            return false;
        }
        let off = match &l.fields {
            crate::bytecode::Fields::Struct { fields } => {
                if k >= fields.len() {
                    return false;
                }
                fields[k].0
            },
            _ => return false,
        };
        let d = match dest.checked_offset(off) {
            Some(d) => d,
            None => return false,
        };
        if !self.try_lower(db, ms[ms.len() - 1], d) {
            return false;
        }
        self.lower_fields(db, e, fs, items, l, dest, j + 1)
    }
}

impl Builder {
    fn lower_call(&mut self, db: &Db, e: ExprId, f: ExprId, args: &Vec<ExprId>, dest: Place) -> (ok: bool)
        requires
            old(self).wf(*db),
            e.0 < db.exprs@.len(),
        ensures
            ok == lower_call_spec(old(self).ctx(*db), old(self)@, e, f, args@, dest) is Some,
            ok ==> final(self)@ == lower_call_spec(old(self).ctx(*db), old(self)@, e, f, args@, dest).unwrap(),
            final(self).wf(*db),
            final(self).same_ctx(*old(self)),
        decreases e.0, 1int, 0int,
    {
        if f.0 >= e.0 {
            return false;
        }
        let g = Ghost(*db);
        proof {
            crate::typing::lemma_expr_ok(*db, self.types@.len(), f);
        }
        let name = match &db.exprs[f.0].data {
            ExprData::Var(n) => *n,
            _ => return false,
        };
        let l = match self.layout_of_expr(db, e) {
            Some(l) => l,
            None => return false,
        };
        let abi = l.abi();
        match abi {
            Abi::Struct => dest.leave_addr(g, self),
            _ => {},
        }
        if !self.lower_args(db, e, args, 0) {
            return false;
        }
        self.push_inst(g, Inst::Call(db.idents[name.0].clone()));
        match abi {
            Abi::Scalar(_) => dest.store(g, self),
            Abi::ScalarPair(p0, _) => {
                let d1 = match dest.checked_offset(p0.size()) {
                    Some(d) => d,
                    None => return false,
                };
                d1.store(g, self);
                dest.store(g, self);
            },
            _ => {},
        }
        true
    }

    fn lower_if(&mut self, db: &Db, e: ExprId, cond: ExprId, th: ExprId, el: Option<ExprId>, dest: Place) -> (ok: bool)
        requires
            old(self).wf(*db),
        ensures
            ok == lower_if_spec(old(self).ctx(*db), old(self)@, e, cond, th, el, dest) is Some,
            ok ==> final(self)@ == lower_if_spec(old(self).ctx(*db), old(self)@, e, cond, th, el, dest).unwrap(),
            final(self).wf(*db),
            final(self).same_ctx(*old(self)),
        decreases e.0, 1int, 0int,
    {
        if cond.0 >= e.0 || th.0 >= e.0 {
            return false;
        }
        match el {
            Some(x) => if x.0 >= e.0 {
                return false;
            },
            None => {},
        }
        let g = Ghost(*db);
        let tb = self.new_block(g);
        let eb = self.new_block(g);
        let nb = self.new_block(g);
        let pc = match self.try_lower_into_tmp(db, cond) {
            Some(p) => p,
            None => return false,
        };
        pc.load(g, self, Type::Bool);
        self.terminate_current_block(g, Terminator::Br(tb, eb));
        self.switch_to_block(g, tb);
        if !self.try_lower(db, th, dest) {
            return false;
        }
        self.terminate_current_block(g, Terminator::Jmp(nb));
        self.switch_to_block(g, eb);
        match el {
            Some(x) => if !self.try_lower(db, x, dest) {
                return false;
            },
            None => {},
        }
        self.terminate_current_block(g, Terminator::Jmp(nb));
        self.switch_to_block(g, nb);
        true
    }

    fn lower_while(&mut self, db: &Db, e: ExprId, cond: ExprId, body: ExprId, dest: Place) -> (ok: bool)
        requires
            old(self).wf(*db),
        ensures
            ok == lower_while_spec(old(self).ctx(*db), old(self)@, e, cond, body, dest) is Some,
            ok ==> final(self)@ == lower_while_spec(old(self).ctx(*db), old(self)@, e, cond, body, dest).unwrap(),
            final(self).wf(*db),
            final(self).same_ctx(*old(self)),
        decreases e.0, 1int, 0int,
    {
        if cond.0 >= e.0 || body.0 >= e.0 {
            return false;
        }
        let g = Ghost(*db);
        let cb = self.new_block(g);
        let bb = self.new_block(g);
        let nb = self.new_block(g);
        self.terminate_current_block(g, Terminator::Jmp(cb));
        self.switch_to_block(g, cb);
        let pc = match self.try_lower_into_tmp(db, cond) {
            Some(p) => p,
            None => return false,
        };
        pc.load(g, self, Type::Bool);
        self.terminate_current_block(g, Terminator::Br(bb, nb));
        self.switch_to_block(g, bb);
        if !self.try_lower(db, body, dest) {
            return false;
        }
        self.terminate_current_block(g, Terminator::Jmp(cb));
        self.switch_to_block(g, nb);
        true
    }

    fn lower_index(&mut self, db: &Db, e: ExprId, a: ExprId, i: ExprId, dest: Place) -> (r: Option<Option<Place>>)
        requires
            old(self).wf(*db),
            e.0 < db.exprs@.len(),
            ex(old(self).ctx(*db), e) == ExprData::Index(a, i),
        ensures
            r is Some == lower_index_spec(old(self).ctx(*db), old(self)@, e, a, i, dest) is Some,
            r is Some ==> final(self)@ == lower_index_spec(old(self).ctx(*db), old(self)@, e, a, i, dest).unwrap(),
            r matches Some(p) ==> p == place_of_spec(old(self).ctx(*db), old(self)@, e),
            final(self).wf(*db),
            final(self).same_ctx(*old(self)),
        decreases e.0, 1int, 0int,
    {
        if i.0 >= e.0 {
            return None;
        }
        let g = Ghost(*db);
        let ghost b0 = self@;
        let l = match self.elem_base(db, e, a) {
            Some(l) => l,
            None => return None,
        };
        let ip = match self.try_lower_into_tmp(db, i) {
            Some(p) => p,
            None => return None,
        };
        self.elem_addr(g, ip, &l);
        let ti = match self.tp_at(g, i) {
            Some(t) => t,
            None => return None,
        };
        match self.types.get(ti) {
            TypeData::Primitive(_) => {
                let pl = self.store_ptr(g);
                proof {
                    assert(lower_place_spec(self.ctx(*db), b0, e) == Some((Some(pl), self@)));
                }
                pl.copy_to(g, self, dest, &l);
                Some(Some(pl))
            },
            TypeData::Range => {
                let ip8 = match ip.checked_offset(8) {
                    Some(p) => p,
                    None => return None,
                };
                let d8 = match dest.checked_offset(8) {
                    Some(p) => p,
                    None => return None,
                };
                dest.store(g, self);
                ip8.load(g, self, Type::Int64);
                ip.load(g, self, Type::Int64);
                self.push_inst(g, Inst::Binop(Binop::Sub));
                d8.store(g, self);
                Some(None)
            },
            _ => None,
        }
    }
}

/// The result of lowering a function: its code, or only its signature for
/// an external function.
pub enum LoweringResult {
    Function(Func),
    Extern(FuncSig),
}

/// The builder of a function before anything is lowered: one empty block.
pub open spec fn initial_builder() -> BuilderV {
    BuilderV {
        blocks: seq![(Seq::<Inst>::empty(), Terminator::Ret)],
        current: 0,
        vars: Map::empty(),
        variables: Seq::empty(),
    }
}

/// Takes the parameters `args[..i]` off the stack, the last first, into
/// locals, and binds their patterns.
pub open spec fn params_spec(c: LowerCtx, b: BuilderV, args: Seq<(PatternId, TypeId)>, i: int) -> Option<BuilderV>
    decreases i,
{
    if i <= 0 || i > args.len() {
        Some(b)
    } else {
        let (p, t) = args[i - 1];
        match lay(c, t) {
            Some(l) => {
                let b1 = match abi_of(l) {
                    Abi::Unit => Some(b),
                    Abi::Scalar(_) => match new_tmp_spec(c, b, t) {
                        Some((tmp, b2)) => lower_pat_spec(c, store_spec(b2, tmp), p, t, tmp),
                        None => None,
                    },
                    Abi::ScalarPair(p0, _) => match new_tmp_spec(c, b, t) {
                        Some((tmp, b2)) => match add_offset_spec(tmp, type_size(p0) as u32) {
                            Some(t1) => lower_pat_spec(c, store_spec(store_spec(b2, t1), tmp), p, t, tmp),
                            None => None,
                        },
                        None => None,
                    },
                    Abi::Struct => {
                        let (pl, b2) = store_ptr_spec(b);
                        lower_pat_spec(c, b2, p, t, pl)
                    },
                };
                match b1 {
                    Some(b3) => params_spec(c, b3, args, i - 1),
                    None => None,
                }
            },
            None => None,
        }
    }
}

/// The layouts of the parameters `args[i..]`.
pub open spec fn param_layouts(c: LowerCtx, args: Seq<(PatternId, TypeId)>, i: int) -> Option<Seq<LayoutV>>
    decreases args.len() - i,
{
    if i < 0 || i >= args.len() {
        Some(Seq::empty())
    } else {
        match (lay(c, args[i].1), param_layouts(c, args, i + 1)) {
            (Some(l), Some(ls)) => Some(seq![l] + ls),
            _ => None,
        }
    }
}

/// The layout of what a function returns: unit when it names no type.
pub open spec fn ret_layout(c: LowerCtx, ret: Option<TypeId>) -> Option<LayoutV> {
    match ret {
        Some(t) => lay(c, t),
        None => Some(unit_layout()),
    }
}

/// Lowering the body: its value is left on the stack as the return
/// convention wants, or stored through the pointer passed for it.
pub open spec fn body_spec(c: LowerCtx, b: BuilderV, body: ExprId, l: LayoutV) -> Option<BuilderV> {
    match abi_of(l) {
        Abi::Unit => match lower_into_tmp_spec(c, b, body) {
            Some((_, b1)) => Some(b1),
            None => None,
        },
        Abi::Scalar(t) => match lower_into_tmp_spec(c, b, body) {
            Some((x, b1)) => Some(load_spec(b1, x, t)),
            None => None,
        },
        Abi::ScalarPair(p0, p1) => match lower_into_tmp_spec(c, b, body) {
            Some((x, b1)) => match add_offset_spec(x, type_size(p0) as u32) {
                Some(x1) => Some(load_spec(load_spec(b1, x, p0), x1, p1)),
                None => None,
            },
            None => None,
        },
        Abi::Struct => {
            let (pl, b1) = store_ptr_spec(b);
            lower_spec(c, b1, body, pl)
        },
    }
}

/// Lowering function `func` from builder state `b`: the builder after its
/// parameters and body, the layouts of its parameters, and of its result.
pub open spec fn compile_spec(c: LowerCtx, b: BuilderV, func: FnDef) -> Option<(BuilderV, Seq<LayoutV>, LayoutV)> {
    let fd = c.db.fns@[func.0 as int];
    match (params_spec(c, b, fd.args@, fd.args@.len() as int), param_layouts(c, fd.args@, 0), ret_layout(c, fd.ret)) {
        (Some(b1), Some(ls), Some(rl)) => match fd.body {
            Some(body) => match body_spec(c, b1, body, rl) {
                Some(b2) => Some((b2, ls, rl)),
                None => None,
            },
            None => Some((b1, ls, rl)),
        },
        _ => None,
    }
}

/// The view of a compiled function's blocks.
pub open spec fn blocks_view(bs: Seq<Block>) -> Seq<(Seq<Inst>, Terminator)> {
    bs.map_values(|b: Block| (b.insts@, b.terminator))
}

impl Builder {
    /// A builder for function `func`, with the types that inference gives
    /// it.
    pub fn new(db: &Db, types: Types, func: FnDef) -> (b: Self)
        requires
            func.0 < db.fns@.len(),
            crate::driver::types_ok(*db, types@),
            db.fns@[func.0 as int].body matches Some(bd) ==> crate::typing::struct_names_ok(*db, db.fns@[func.0 as int].sf, bd),
            db.fns@[func.0 as int].body is None ==> db.fns@[func.0 as int].is_ext,
        ensures
            ({
                let st = crate::driver::check_fn_spec(*db, func, crate::driver::initial_env(*db, types@));
                let (m, fin) = crate::typing::zonk_map_spec(st, st.type_map, 0, st.types.len());
                &&& b.type_map@ == m
                &&& b.types@ == fin.types
            }),
            b@ == initial_builder(),
            b.func == func,
            b.wf(*db),
    {
        let r = crate::driver::type_check_func(db, types, func);
        let mut blocks: Vec<Block> = Vec::new();
        let blk = Block::empty();
        assert(blk.insts@ =~= Seq::<Inst>::empty());
        blocks.push(blk);
        let b = Builder {
            blocks,
            current_block: 0,
            variable_map: HashMap::new(),
            variables: Vec::new(),
            func,
            types: r.types,
            type_map: r.type_map,
        };
        assert(b@.blocks =~= initial_builder().blocks);
        assert(b@.variables =~= Seq::<LayoutV>::empty());
        b
    }

    fn lower_params(&mut self, db: &Db, args: &Vec<(PatternId, TypeId)>, i: usize) -> (ok: bool)
        requires
            old(self).wf(*db),
        ensures
            ok == params_spec(old(self).ctx(*db), old(self)@, args@, i as int) is Some,
            ok ==> final(self)@ == params_spec(old(self).ctx(*db), old(self)@, args@, i as int).unwrap(),
            final(self).wf(*db),
            final(self).same_ctx(*old(self)),
        decreases i,
    {
        if i == 0 || i > args.len() {
            return true;
        }
        let g = Ghost(*db);
        let (p, t) = args[i - 1];
        let layout = match self.layout_at(db, t) {
            Some(l) => l,
            None => return false,
        };
        match layout.abi() {
            Abi::Unit => {},
            Abi::Scalar(_) => {
                let tmp = self.new_tmp_var(db, t);
                tmp.store(g, self);
                if !self.try_lower_pat(db, p, t, tmp) {
                    return false;
                }
            },
            Abi::ScalarPair(p0, _) => {
                let tmp = self.new_tmp_var(db, t);
                let t1 = match tmp.checked_offset(p0.size()) {
                    Some(x) => x,
                    None => return false,
                };
                t1.store(g, self);
                tmp.store(g, self);
                if !self.try_lower_pat(db, p, t, tmp) {
                    return false;
                }
            },
            Abi::Struct => {
                let place = self.store_ptr(g);
                if !self.try_lower_pat(db, p, t, place) {
                    return false;
                }
            },
        }
        self.lower_params(db, args, i - 1)
    }

    fn param_layouts_exec(&self, db: &Db, args: &Vec<(PatternId, TypeId)>) -> (r: Option<Vec<Layout>>)
        requires
            self.wf(*db),
        ensures
            match r {
                Some(ls) => param_layouts(self.ctx(*db), args@, 0) == Some(ls@.map_values(|l: Layout| l@)),
                None => param_layouts(self.ctx(*db), args@, 0) is None,
            },
    {
        let n = args.len();
        let mut ls: Vec<Layout> = Vec::new();
        let mut i = n;
        proof {
            assert(Seq::<Layout>::empty().map_values(|l: Layout| l@) =~= param_layouts(self.ctx(*db), args@, n as int).unwrap());
        }
        while i > 0
            invariant
                i <= n,
                n == args@.len(),
                self.wf(*db),
                param_layouts(self.ctx(*db), args@, i as int) == Some(ls@.map_values(|l: Layout| l@)),
            decreases i,
        {
            let l = match self.layout_at(db, args[i - 1].1) {
                Some(l) => l,
                None => {
                    proof {
                        assert(param_layouts(self.ctx(*db), args@, i - 1) is None);
                        if param_layouts(self.ctx(*db), args@, 0) is Some {
                            lemma_param_layouts_some(self.ctx(*db), args@, 0);
                        }
                    }
                    return None;
                },
            };
            let ghost old_ls = ls@;
            ls.insert(0, l);
            proof {
                assert(ls@ == seq![l] + old_ls);
                assert(ls@.map_values(|l: Layout| l@) =~= seq![l@] + old_ls.map_values(|l: Layout| l@));
            }
            i = i - 1;
        }
        Some(ls)
    }

    /// Lowers the function: its parameters are taken off the stack into
    /// locals, and its body is lowered; a function without a body gives
    /// only its signature.
    pub fn compile(self, db: &Db) -> (r: LoweringResult)
        requires
            self.wf(*db),
            self@ == initial_builder(),
            self.func.0 < db.fns@.len(),
            compile_spec(self.ctx(*db), self@, self.func) is Some,
        ensures
            compiled_as(*db, compile_spec(self.ctx(*db), self@, self.func).unwrap(), self.func, r),
    {
        self.try_compile(db).unwrap()
    }

    /// Lowers the function as `compile` does; none where it cannot be
    /// lowered.
    pub fn try_compile(self, db: &Db) -> (r: Option<LoweringResult>)
        requires
            self.wf(*db),
            self@ == initial_builder(),
            self.func.0 < db.fns@.len(),
        ensures
            match r {
                Some(res) => compile_spec(self.ctx(*db), self@, self.func) is Some && compiled_as(
                    *db,
                    compile_spec(self.ctx(*db), self@, self.func).unwrap(),
                    self.func,
                    res,
                ),
                None => compile_spec(self.ctx(*db), self@, self.func) is None,
            },
    {
        let mut b = self;
        let fd = &db.fns[b.func.0];
        let g = Ghost(*db);
        if !b.lower_params(db, &fd.args, fd.args.len()) {
            return None;
        }
        let args = match b.param_layouts_exec(db, &fd.args) {
            Some(a) => a,
            None => return None,
        };
        let layout = match fd.ret {
            Some(t) => match b.layout_at(db, t) {
                Some(l) => l,
                None => return None,
            },
            None => Layout::unit(),
        };
        let ghost rl = layout@;
        let mut rets: Vec<Layout> = Vec::new();
        rets.push(layout.copy());
        assert(rets@.map_values(|l: Layout| l@) =~= seq![rl]);
        let sig = FuncSig { args, rets };
        match fd.body {
            Some(body) => {
                match layout.abi() {
                    Abi::Unit => {
                        if b.try_lower_into_tmp(db, body).is_none() {
                            return None;
                        }
                    },
                    Abi::Scalar(t) => {
                        let x = match b.try_lower_into_tmp(db, body) {
                            Some(x) => x,
                            None => return None,
                        };
                        x.load(g, &mut b, t);
                    },
                    Abi::ScalarPair(p0, p1) => {
                        let x = match b.try_lower_into_tmp(db, body) {
                            Some(x) => x,
                            None => return None,
                        };
                        let x1 = match x.checked_offset(p0.size()) {
                            Some(p) => p,
                            None => return None,
                        };
                        x.load(g, &mut b, p0);
                        x1.load(g, &mut b, p1);
                    },
                    Abi::Struct => {
                        let place = b.store_ptr(g);
                        if !b.try_lower(db, body, place) {
                            return None;
                        }
                    },
                }
                let mut sizes: Vec<u32> = Vec::new();
                let nv = b.variables.len();
                for k in 0..nv
                    invariant
                        nv == b.variables@.len(),
                        sizes@ == b@.variables.take(k as int).map_values(|l: LayoutV| l.size as u32),
                {
                    sizes.push(b.variables[k].size() as u32);
                    proof {
                        assert(b@.variables[k as int] == b.variables@[k as int]@);
                        assert(sizes@ =~= b@.variables.take(k + 1).map_values(|l: LayoutV| l.size as u32));
                    }
                }
                assert(b@.variables.take(nv as int) =~= b@.variables);
                Some(LoweringResult::Function(Func { blocks: b.blocks, variables: sizes, sig }))
            },
            None => Some(LoweringResult::Extern(sig)),
        }
    }
}

/// What lowering function `func` gives, from the builder, parameter
/// layouts and result layout `res` that `compile_spec` describes: the
/// compiled code of a function with a body, or the signature of one
/// without.
pub open spec fn compiled_as(db: Db, res: (BuilderV, Seq<LayoutV>, LayoutV), func: FnDef, r: LoweringResult) -> bool {
    let (bv, ls, rl) = res;
    match r {
        LoweringResult::Function(f) => {
            &&& db.fns@[func.0 as int].body is Some
            &&& blocks_view(f.blocks@) == bv.blocks
            &&& f.variables@ == bv.variables.map_values(|l: LayoutV| l.size as u32)
            &&& f.sig.args@.map_values(|l: Layout| l@) == ls
            &&& f.sig.rets@.map_values(|l: Layout| l@) == seq![rl]
        },
        LoweringResult::Extern(sig) => {
            &&& db.fns@[func.0 as int].body is None
            &&& sig.args@.map_values(|l: Layout| l@) == ls
            &&& sig.rets@.map_values(|l: Layout| l@) == seq![rl]
        },
    }
}

/// When the layouts of all parameters exist, so do those of every suffix.
pub proof fn lemma_param_layouts_some(c: LowerCtx, args: Seq<(PatternId, TypeId)>, i: int)
    requires
        0 <= i <= args.len(),
        param_layouts(c, args, i) is Some,
    ensures
        forall|j: int| i <= j <= args.len() ==> param_layouts(c, args, j) is Some,
    decreases args.len() - i,
{
    if i < args.len() {
        lemma_param_layouts_some(c, args, i + 1);
    }
}
} // verus!
