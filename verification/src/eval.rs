use vstd::prelude::*;
use crate::value::Value;
use crate::value::ValueS;
use crate::value::spec_truthy;
use crate::value::spec_parse_i64;
use crate::value::eq_str;
use crate::value::eval_value_as_bool;
use crate::value::parse_i64;
use crate::ast::BinOp;
use crate::ast::EngineError;
use crate::ast::Expr;

verus! {

/// Position of the first attribute equal to `name`, if any.
pub open spec fn spec_find_col(attrs: Seq<Seq<char>>, name: Seq<char>) -> Option<int>
    decreases attrs.len(),
{
    if attrs.len() == 0 {
        None
    } else if attrs[0] == name {
        Some(0)
    } else {
        match spec_find_col(attrs.drop_first(), name) {
            Some(i) => Some(i + 1),
            None => None,
        }
    }
}

/// Skipping a prefix with no match shifts the found position.
pub proof fn lemma_find_col_skip(attrs: Seq<Seq<char>>, name: Seq<char>, i: int)
    requires
        0 <= i <= attrs.len(),
        forall|j: int| 0 <= j < i ==> attrs[j] != name,
    ensures
        spec_find_col(attrs, name) == match spec_find_col(attrs.skip(i), name) {
            Some(k) => Some(k + i),
            None => None::<int>,
        },
    decreases i,
{
    if i == 0 {
        assert(attrs.skip(0) =~= attrs);
    } else {
        assert(attrs[0] != name);
        let rest = attrs.drop_first();
        assert(rest.skip(i - 1) =~= attrs.skip(i));
        assert(forall|j: int| 0 <= j < i - 1 ==> rest[j] != name);
        lemma_find_col_skip(rest, name, i - 1);
    }
}

/// Find the position of a column name in the current attribute list.
pub fn find_col(attrs: &Vec<String>, name: &str) -> (r: Option<usize>)
    ensures
        match r {
            Some(i) => spec_find_col(attrs.deep_view(), name@) == Some(i as int) && i < attrs.len(),
            None => spec_find_col(attrs.deep_view(), name@) is None,
        },
{
    let ghost va = attrs.deep_view();
    let mut i: usize = 0;
    while i < attrs.len()
        invariant
            0 <= i <= attrs.len(),
            va == attrs.deep_view(),
            va.len() == attrs.len(),
            forall|j: int| 0 <= j < i ==> va[j] != name@,
        decreases attrs.len() - i,
    {
        if eq_str(attrs[i].as_str(), name) {
            proof {
                lemma_find_col_skip(va, name@, i as int);
                assert(va.skip(i as int)[0] == va[i as int]);
                assert(spec_find_col(va.skip(i as int), name@) == Some(0int));
            }
            return Some(i);
        }
        i += 1;
    }
    proof {
        lemma_find_col_skip(va, name@, va.len() as int);
        assert(va.skip(va.len() as int).len() == 0);
    }
    None
}

/// What one binary operator yields on two already-evaluated operands.
/// AND and OR coerce both operands to truthiness; `>` demands integers on
/// both sides and never coerces; everything else is unsupported.
pub open spec fn spec_apply_binop(op: BinOp, l: ValueS, r: ValueS) -> Result<ValueS, EngineError> {
    match op {
        BinOp::And => Ok(ValueS::Boolean(spec_truthy(l) && spec_truthy(r))),
        BinOp::Or => Ok(ValueS::Boolean(spec_truthy(l) || spec_truthy(r))),
        BinOp::Gt => match l {
            ValueS::Integer(li) => match r {
                ValueS::Integer(ri) => Ok(ValueS::Boolean(li > ri)),
                _ => Err(EngineError::NotAnInteger),
            },
            _ => Err(EngineError::NotAnInteger),
        },
        BinOp::Other => Err(EngineError::UnsupportedConstruct),
    }
}

/// What evaluating an expression against one row yields. Both operands of
/// a binary operator are always evaluated, in left-to-right order, before
/// the operator is applied: there is no short-circuit, so an aborting
/// right operand aborts even when the left already decides AND or OR.
pub open spec fn spec_eval(e: Expr, attrs: Seq<Seq<char>>, row: Seq<ValueS>) -> Result<
    ValueS,
    EngineError,
>
    decreases e,
{
    match e {
        Expr::Identifier(name) => match spec_find_col(attrs, name@) {
            Some(i) => if i < row.len() {
                Ok(row[i])
            } else {
                Err(EngineError::UnresolvedColumn)
            },
            None => Err(EngineError::UnresolvedColumn),
        },
        Expr::BoolLiteral(b) => Ok(ValueS::Boolean(b)),
        Expr::StringLiteral(s) => Ok(ValueS::Text(s@)),
        Expr::NumberLiteral(s) => match spec_parse_i64(s@) {
            Some(v) => Ok(ValueS::Integer(v)),
            None => Err(EngineError::MalformedNumber),
        },
        Expr::BinaryOp { op, left, right } => match spec_eval(*left, attrs, row) {
            Err(e1) => Err(e1),
            Ok(lv) => match spec_eval(*right, attrs, row) {
                Err(e2) => Err(e2),
                Ok(rv) => spec_apply_binop(op, lv, rv),
            },
        },
        Expr::Unsupported => Err(EngineError::UnsupportedConstruct),
    }
}

fn apply_binop(op: &BinOp, l: Value, r: Value) -> (res: Result<Value, EngineError>)
    ensures
        match res {
            Ok(v) => spec_apply_binop(*op, l@, r@) == Ok::<ValueS, EngineError>(v@),
            Err(e) => spec_apply_binop(*op, l@, r@) == Err::<ValueS, EngineError>(e),
        },
{
    match op {
        BinOp::And => {
            let lb = eval_value_as_bool(l);
            let rb = eval_value_as_bool(r);
            Ok(Value::Boolean(lb && rb))
        },
        BinOp::Or => {
            let lb = eval_value_as_bool(l);
            let rb = eval_value_as_bool(r);
            Ok(Value::Boolean(lb || rb))
        },
        BinOp::Gt => match l {
            Value::Integer(li) => match r {
                Value::Integer(ri) => Ok(Value::Boolean(li > ri)),
                _ => Err(EngineError::NotAnInteger),
            },
            _ => Err(EngineError::NotAnInteger),
        },
        BinOp::Other => Err(EngineError::UnsupportedConstruct),
    }
}

/// Evaluate an expression against one row, resolving column names against
/// the given attribute list.
pub fn eval_expr_on_row(expr: &Expr, relation_attributes: &Vec<String>, row: &Vec<Value>) -> (r:
    Result<Value, EngineError>)
    ensures
        match r {
            Ok(v) => spec_eval(*expr, relation_attributes.deep_view(), row.deep_view())
                == Ok::<ValueS, EngineError>(v@),
            Err(e) => spec_eval(*expr, relation_attributes.deep_view(), row.deep_view())
                == Err::<ValueS, EngineError>(e),
        },
    decreases *expr,
{
    match expr {
        Expr::Identifier(name) => match find_col(relation_attributes, name.as_str()) {
            Some(i) => {
                if i < row.len() {
                    Ok(row[i].dup())
                } else {
                    Err(EngineError::UnresolvedColumn)
                }
            },
            None => Err(EngineError::UnresolvedColumn),
        },
        Expr::BoolLiteral(b) => Ok(Value::Boolean(*b)),
        Expr::StringLiteral(s) => Ok(Value::Text(s.clone())),
        Expr::NumberLiteral(s) => match parse_i64(s.as_str()) {
            Some(v) => Ok(Value::Integer(v)),
            None => Err(EngineError::MalformedNumber),
        },
        Expr::BinaryOp { op, left, right } => {
            let lv = match eval_expr_on_row(left, relation_attributes, row) {
                Ok(v) => v,
                Err(e) => {
                    return Err(e);
                },
            };
            let rv = match eval_expr_on_row(right, relation_attributes, row) {
                Ok(v) => v,
                Err(e) => {
                    return Err(e);
                },
            };
            apply_binop(op, lv, rv)
        },
        Expr::Unsupported => Err(EngineError::UnsupportedConstruct),
    }
}

} // verus!
