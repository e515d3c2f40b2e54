//! The values that evaluation produces.

use vstd::prelude::*;
use crate::ast::{
    clone_exprs, clone_stmts, exprs_view, list_text, stmt_text, stmt_view, stmts_view,
    write_list, write_stmt, ExprView, Expression, Statement, StmtView,
};
use crate::text::{int_text, push_int, push_str};

verus! {

/// A runtime value.
#[derive(Debug, PartialEq)]
pub enum Object {
    Null,
    Integer(i64),
    Bool(bool),
    /// A value on its way out of the blocks around a `return`.
    ReturnValue { value: Box<Object> },
    /// A closure: a function together with the scope it was made in.
    Function { parameters: Vec<Expression>, body: Vec<Statement>, env: usize },
}

/// The mathematical value of a runtime value.
pub enum ObjView {
    Null,
    Integer(i64),
    Bool(bool),
    ReturnValue { value: Box<ObjView> },
    Function { parameters: Seq<ExprView>, body: Seq<StmtView>, env: nat },
}

/// The model of a runtime value.
pub open spec fn obj_view(o: Object) -> ObjView
    decreases o,
{
    match o {
        Object::Null => ObjView::Null,
        Object::Integer(n) => ObjView::Integer(n),
        Object::Bool(b) => ObjView::Bool(b),
        Object::ReturnValue { value } => ObjView::ReturnValue { value: Box::new(obj_view(*value)) },
        Object::Function { parameters, body, env } => ObjView::Function {
            parameters: exprs_view(parameters@),
            body: stmts_view(body@),
            env: env as nat,
        },
    }
}

impl View for Object {
    type V = ObjView;

    open spec fn view(&self) -> ObjView {
        obj_view(*self)
    }
}

/// The models of a sequence of runtime values, in order.
pub open spec fn objs_view(v: Seq<Object>) -> Seq<ObjView> {
    v.map_values(|o: Object| o@)
}

/// The name of the kind of a value.
pub open spec fn kind_name(o: ObjView) -> Seq<char> {
    match o {
        ObjView::Null => "NULL"@,
        ObjView::Integer(_) => "INTEGER"@,
        ObjView::Bool(_) => "BOOLEAN"@,
        ObjView::ReturnValue { .. } => "RETURN_VALUE"@,
        ObjView::Function { .. } => "FUNCTION"@,
    }
}

/// The printed forms of a sequence of statements, each on a line of its own
/// that begins with a space.
pub open spec fn body_text(v: Seq<StmtView>) -> Seq<char>
    decreases v.len(),
{
    if v.len() == 0 {
        Seq::empty()
    } else if v.len() == 1 {
        stmt_text(v.last())
    } else {
        body_text(v.drop_last()) + "\n "@ + stmt_text(v.last())
    }
}

/// The printed form of a value: an integer in decimal, a boolean as `true`
/// or `false`, the null value as `null`, a returned value as the value, and
/// a function as its parameters and body.
pub open spec fn obj_text(o: ObjView) -> Seq<char>
    decreases o,
{
    match o {
        ObjView::Null => "null"@,
        ObjView::Integer(n) => int_text(n as int),
        ObjView::Bool(b) => if b {
            "true"@
        } else {
            "false"@
        },
        ObjView::ReturnValue { value } => obj_text(*value),
        ObjView::Function { parameters, body, env } => "fn("@ + list_text(parameters) + ") "@
            + "{\n "@ + body_text(body) + "\n}"@,
    }
}

/// The printed form of a body extended by one statement.
pub proof fn lemma_body_text_push(v: Seq<StmtView>, s: StmtView)
    ensures
        body_text(v.push(s)) == if v.len() == 0 {
            stmt_text(s)
        } else {
            body_text(v) + "\n "@ + stmt_text(s)
        },
{
    assert(v.push(s).drop_last() =~= v);
}

/// Appends the statements of a body, each on a line of its own, to `out`.
pub fn write_body(v: &Vec<Statement>, out: &mut String)
    ensures
        final(out)@ == old(out)@ + body_text(stmts_view(v@)),
{
    let ghost start = out@;
    let mut i: usize = 0;
    assert(out@ =~= start + body_text(stmts_view(v@.take(0))));
    while i < v.len()
        invariant
            i <= v.len(),
            out@ == start + body_text(stmts_view(v@.take(i as int))),
        decreases v.len() - i,
    {
        if i > 0 {
            push_str(out, "\n ");
        }
        write_stmt(&v[i], out);
        proof {
            assert(v@.take(i + 1) =~= v@.take(i as int).push(v@[i as int]));
            crate::ast::lemma_stmts_view_push(v@.take(i as int), v@[i as int]);
            lemma_body_text_push(stmts_view(v@.take(i as int)), stmt_view(v@[i as int]));
            crate::ast::lemma_stmts_view_index(v@.take(i as int));
            assert(out@ =~= start + body_text(stmts_view(v@.take(i + 1))));
        }
        i = i + 1;
    }
    assert(v@.take(v.len() as int) =~= v@);
}

/// Appends the printed form of a value to `out`.
pub fn write_object(o: &Object, out: &mut String)
    ensures
        final(out)@ == old(out)@ + obj_text(o@),
    decreases o,
{
    let ghost start = out@;
    match o {
        Object::Null => {
            push_str(out, "null");
        },
        Object::Integer(n) => {
            push_int(out, *n);
        },
        Object::Bool(b) => {
            if *b {
                push_str(out, "true");
            } else {
                push_str(out, "false");
            }
        },
        Object::ReturnValue { value } => {
            write_object(value, out);
        },
        Object::Function { parameters, body, env } => {
            push_str(out, "fn(");
            write_list(parameters, out);
            push_str(out, ") ");
            push_str(out, "{\n ");
            write_body(body, out);
            push_str(out, "\n}");
            assert(out@ =~= start + obj_text(o@));
        },
    }
}

/// A copy of a value.
pub fn clone_object(o: &Object) -> (res: Object)
    ensures
        res@ == o@,
    decreases o,
{
    match o {
        Object::Null => Object::Null,
        Object::Integer(n) => Object::Integer(*n),
        Object::Bool(b) => Object::Bool(*b),
        Object::ReturnValue { value } => Object::ReturnValue {
            value: Box::new(clone_object(value)),
        },
        Object::Function { parameters, body, env } => Object::Function {
            parameters: clone_exprs(parameters),
            body: clone_stmts(body),
            env: *env,
        },
    }
}

impl Clone for Object {
    fn clone(&self) -> (res: Object)
        ensures
            res@ == self@,
    {
        clone_object(self)
    }
}

impl Object {
    /// The printed form of the value.
    pub fn to_string(&self) -> (text: String)
        ensures
            text@ == obj_text(self@),
    {
        let mut text = String::new();
        write_object(self, &mut text);
        assert(text@ =~= obj_text(self@));
        text
    }

    /// The name of the kind of the value.
    pub fn object_type(&self) -> (name: String)
        ensures
            name@ == kind_name(self@),
    {
        match self {
            Object::Null => String::from_str("NULL"),
            Object::Integer(_) => String::from_str("INTEGER"),
            Object::Bool(_) => String::from_str("BOOLEAN"),
            Object::ReturnValue { .. } => String::from_str("RETURN_VALUE"),
            Object::Function { .. } => String::from_str("FUNCTION"),
        }
    }
}

} // verus!
