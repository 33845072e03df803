use vstd::prelude::*;
use vstd::string::StringExecFns;
use crate::ast::EngineError;
use crate::ast::Expr;
use crate::ast::SelectItem;
use crate::ast::SelectQuery;
use crate::ast::StatementAst;
use crate::relation::Rel;
use crate::relation::SequentialScan;

verus! {

/// The tail of a dot-joined name: a dot before each further part.
pub open spec fn spec_dot_join_rest(parts: Seq<Seq<char>>) -> Seq<char>
    decreases parts.len(),
{
    if parts.len() == 0 {
        Seq::empty()
    } else {
        seq!['.'] + parts[0] + spec_dot_join_rest(parts.drop_first())
    }
}

/// A qualified table name resolved into a file path: its dot-separated
/// parts rejoined with a literal dot.
pub open spec fn spec_dot_join(parts: Seq<Seq<char>>) -> Seq<char> {
    if parts.len() == 0 {
        Seq::empty()
    } else {
        parts[0] + spec_dot_join_rest(parts.drop_first())
    }
}

/// Join name parts with dots.
pub fn dot_join(parts: &Vec<String>) -> (r: String)
    ensures
        r@ == spec_dot_join(parts.deep_view()),
{
    let ghost ps = parts.deep_view();
    let mut out = String::new();
    if parts.len() == 0 {
        return out;
    }
    out.append(parts[0].as_str());
    let mut i: usize = 1;
    proof {
        assert(ps.skip(1) =~~= ps.drop_first());
        assert(out@ == ps[0]);
    }
    while i < parts.len()
        invariant
            1 <= i <= parts.len(),
            ps == parts.deep_view(),
            ps.len() == parts.len(),
            spec_dot_join(ps) == out@ + spec_dot_join_rest(ps.skip(i as int)),
        decreases parts.len() - i,
    {
        let ghost pre = out@;
        out.append(".");
        out.append(parts[i].as_str());
        proof {
            reveal_strlit(".");
            assert("."@.len() == 1);
            assert("."@[0] == '.');
            assert("."@ =~~= seq!['.']);
            assert(ps.skip(i as int)[0] == ps[i as int]);
            assert(ps.skip(i as int).drop_first() =~~= ps.skip(i + 1));
            assert(out@ == pre + "."@ + ps[i as int]);
            assert(pre + seq!['.'] + ps[i as int] + spec_dot_join_rest(ps.skip(i + 1)) =~~= pre + (
            seq!['.'] + ps[i as int] + spec_dot_join_rest(ps.skip(i + 1))));
        }
        i += 1;
    }
    proof {
        assert(ps.skip(ps.len() as int).len() == 0);
        assert(out@ + Seq::<char>::empty() =~~= out@);
    }
    out
}

/// The finished plan of one SELECT statement: the file the single FROM
/// source names, the WHERE expression if one is present, and the SELECT
/// list when it is non-empty (a bare `*` list is kept, not special-cased
/// away).
pub struct QueryPlan {
    pub filename: String,
    pub selection: Option<Expr>,
    pub projected: Option<Vec<SelectItem>>,
}

/// What planning a statement yields: exactly one plain FROM table with no
/// joins is required; any other statement shape is refused outright.
pub open spec fn spec_plan(stmt: StatementAst, r: Result<QueryPlan, EngineError>) -> bool {
    match stmt {
        StatementAst::Unsupported => r == Err::<QueryPlan, EngineError>(
            EngineError::UnsupportedConstruct,
        ),
        StatementAst::Select(q) => {
            if q.from@.len() == 0 {
                r == Err::<QueryPlan, EngineError>(EngineError::MissingFrom)
            } else if q.from@.len() != 1 || !q.from@[0].is_plain_table || q.from@[0].join_count
                != 0 {
                r == Err::<QueryPlan, EngineError>(EngineError::UnsupportedConstruct)
            } else {
                match r {
                    Ok(plan) => {
                        &&& plan.filename@ == spec_dot_join(q.from@[0].name_parts.deep_view())
                        &&& plan.selection == q.selection
                        &&& plan.projected == if q.projection@.len() == 0 {
                            None::<Vec<SelectItem>>
                        } else {
                            Some(q.projection)
                        }
                    },
                    Err(_) => false,
                }
            }
        },
    }
}

/// Plan one parsed statement: resolve the FROM source to a file name and
/// keep the WHERE clause and SELECT list for the operator tree.
pub fn plan_statement(stmt: StatementAst) -> (r: Result<QueryPlan, EngineError>)
    ensures
        spec_plan(stmt, r),
{
    match stmt {
        StatementAst::Unsupported => Err(EngineError::UnsupportedConstruct),
        StatementAst::Select(q) => {
            let SelectQuery { from, projection, selection } = q;
            if from.len() == 0 {
                return Err(EngineError::MissingFrom);
            }
            if from.len() != 1 {
                return Err(EngineError::UnsupportedConstruct);
            }
            let table = &from[0];
            if !table.is_plain_table || table.join_count != 0 {
                return Err(EngineError::UnsupportedConstruct);
            }
            let filename = dot_join(&table.name_parts);
            let projected = if projection.len() == 0 {
                None
            } else {
                Some(projection)
            };
            Ok(QueryPlan { filename, selection, projected })
        },
    }
}

/// Whether a relation is the scan, optionally wrapped by the plan's
/// selection layer.
pub open spec fn spec_sel_layer(plan: QueryPlan, source: SequentialScan, r: Rel) -> bool {
    match plan.selection {
        Some(e) => match r {
            Rel::Selection { selection, relation } => selection == e && *relation == Rel::Scan(
                source,
            ),
            _ => false,
        },
        None => r == Rel::Scan(source),
    }
}

/// Whether a relation is exactly the operator tree a plan prescribes:
/// the scan leaf, a selection when WHERE is present, a projection when
/// the SELECT list is non-empty, in that order.
pub open spec fn spec_plan_tree(plan: QueryPlan, source: SequentialScan, r: Rel) -> bool {
    match plan.projected {
        Some(items) => match r {
            Rel::Projection { projected, relation } => projected == items && spec_sel_layer(
                plan,
                source,
                *relation,
            ),
            _ => false,
        },
        None => spec_sel_layer(plan, source, r),
    }
}

/// Wrap a relation in a projection carrying the given target list.
pub fn project_relation(projection: Vec<SelectItem>, relation: Rel) -> (r: Rel)
    ensures
        match r {
            Rel::Projection { projected, relation: child } => projected == projection && *child
                == relation,
            _ => false,
        },
{
    Rel::Projection { projected: projection, relation: Box::new(relation) }
}

/// Build the operator tree a plan prescribes over the given scan leaf.
pub fn query_as_relation(plan: QueryPlan, source: SequentialScan) -> (r: Rel)
    ensures
        spec_plan_tree(plan, source, r),
{
    let QueryPlan { filename: _, selection, projected } = plan;
    let mut relation = Rel::Scan(source);
    match selection {
        Some(e) => {
            relation = Rel::Selection { selection: e, relation: Box::new(relation) };
        },
        None => {},
    }
    match projected {
        Some(items) => project_relation(items, relation),
        None => relation,
    }
}

} // verus!
