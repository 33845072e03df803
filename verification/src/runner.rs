use vstd::prelude::*;
use crate::value::Value;
use crate::value::ValueS;
use crate::value::spec_render_value;
use crate::value::render_value;
use crate::ast::EngineError;
use crate::relation::Rel;
use crate::relation::spec_infer_rows;
use crate::relation::spec_proj_attrs;
use crate::relation::spec_proj_stream;
use crate::relation::spec_sel_stream;
use crate::relation::lemma_row_arity;
use crate::csvio::csv_table_of;
use crate::csvio::csv_encoding_of;
use crate::csvio::csv_write;
use crate::planner::QueryPlan;
use crate::planner::query_as_relation;
use crate::planner::spec_sel_layer;
use crate::relation::SequentialScan;

verus! {

/// One row rendered back to CSV text, cell by cell.
pub open spec fn spec_render_row(row: Seq<ValueS>) -> Seq<Seq<char>> {
    row.map_values(|v: ValueS| spec_render_value(v))
}

/// Render one row as a CSV record.
pub fn render_row(row: &Vec<Value>) -> (r: Vec<String>)
    ensures
        r.deep_view() == spec_render_row(row.deep_view()),
{
    let mut r: Vec<String> = Vec::new();
    let mut i: usize = 0;
    while i < row.len()
        invariant
            0 <= i <= row.len(),
            r.deep_view() == spec_render_row(row.deep_view()).take(i as int),
        decreases row.len() - i,
    {
        proof {
            assert(r.deep_view().len() == r@.len());
            assert(spec_render_row(row.deep_view()).len() == row@.len());
        }
        r.push(render_value(&row[i]));
        proof {
            assert(r.deep_view() =~~= spec_render_row(row.deep_view()).take(i + 1));
        }
        i += 1;
    }
    proof {
        assert(spec_render_row(row.deep_view()).take(row@.len() as int) =~~= spec_render_row(
            row.deep_view(),
        ));
    }
    r
}

/// The complete output a relation produces: its attribute list as the
/// header record, then every produced row rendered, the whole encoded as
/// one CSV document; or the first fatal condition met on the way.
pub open spec fn spec_output(r: Rel) -> Result<Seq<u8>, EngineError> {
    match r.spec_attrs() {
        Err(e) => Err(e),
        Ok(attrs) => match r.spec_out().1 {
            Some(e) => Err(e),
            None => Ok(
                csv_encoding_of(
                    seq![attrs] + r.spec_out().0.map_values(|row: Seq<ValueS>| spec_render_row(row)),
                ),
            ),
        },
    }
}

/// Pull the relation to its end and encode header and rows.
#[verifier::loop_isolation(false)]
pub fn execute(rel: Rel) -> (r: Result<Vec<u8>, EngineError>)
    requires
        rel.wf(),
    ensures
        match r {
            Ok(bytes) => spec_output(rel) == Ok::<Seq<u8>, EngineError>(bytes@),
            Err(e) => spec_output(rel) == Err::<Seq<u8>, EngineError>(e),
        },
{
    let ghost orig = rel;
    let attrs = match rel.attributes() {
        Ok(a) => a,
        Err(e) => {
            return Err(e);
        },
    };
    let ghost a0 = attrs.deep_view();
    let mut records: Vec<Vec<String>> = Vec::new();
    records.push(attrs);
    let ghost mut processed: Seq<Seq<ValueS>> = Seq::empty();
    proof {
        assert(records.deep_view() =~~= seq![a0] + processed.map_values(
            |row: Seq<ValueS>| spec_render_row(row),
        ));
        assert(processed + orig.spec_out().0 =~~= orig.spec_out().0);
    }
    let mut cur = rel;
    loop
        invariant
            cur.wf(),
            cur.spec_attrs() == orig.spec_attrs(),
            orig.spec_out().0 == processed + cur.spec_out().0,
            orig.spec_out().1 == cur.spec_out().1,
            records.deep_view() == seq![a0] + processed.map_values(
                |row: Seq<ValueS>| spec_render_row(row),
            ),
            records@.len() == 1 + processed.len(),
        decreases cur.spec_out().0.len(),
    {
        let (c2, res) = cur.next();
        let ghost out_before = cur.spec_out();
        cur = c2;
        match res {
            Ok(Some(row)) => {
                let ghost pre = records.deep_view();
                let ghost pre_processed = processed;
                proof {
                    assert(pre.len() == records@.len());
                }
                let rendered_row = render_row(&row);
                records.push(rendered_row);
                proof {
                    processed = processed.push(out_before.0[0]);
                    assert(orig.spec_out().0 =~~= processed + cur.spec_out().0);
                    let post = seq![a0] + processed.map_values(
                        |r: Seq<ValueS>| spec_render_row(r),
                    );
                    assert(records.deep_view().len() == records@.len());
                    assert(post.len() == 1 + processed.len());
                    assert forall|k: int| 0 <= k < records.deep_view().len() implies records.deep_view()[k]
                        == post[k] by {
                        if k < pre.len() {
                            assert(records@[k] == records@.subrange(0, pre.len() as int)[k]);
                            assert(records.deep_view()[k] == pre[k]);
                            if k > 0 {
                                assert(processed[k - 1] == pre_processed[k - 1]);
                                assert(pre[k] == pre_processed.map_values(
                                    |r: Seq<ValueS>| spec_render_row(r),
                                )[k - 1]);
                            }
                        } else {
                            assert(records.deep_view()[k] == rendered_row.deep_view());
                            assert(row.deep_view() == out_before.0[0]);
                            assert(processed[k - 1] == out_before.0[0]);
                        }
                    }
                    assert(records.deep_view() =~~= post);
                }
            },
            Ok(None) => {
                proof {
                    assert(orig.spec_out().0 =~~= processed + cur.spec_out().0);
                    assert(orig.spec_out().1 is None);
                }
                break;
            },
            Err(e) => {
                proof {
                    assert(orig.spec_out().1 == Some(e));
                }
                return Err(e);
            },
        }
    }
    proof {
        lemma_row_arity(orig);
        assert(orig.spec_out().0 =~~= processed);
        assert(records.deep_view().len() == records@.len());
        assert forall|i: int| 0 <= i < records@.len() implies (#[trigger] records@[i])@.len()
            == records@[0]@.len() by {
            assert(records.deep_view()[i] == records@[i].deep_view());
            assert(records@[i].deep_view().len() == records@[i]@.len());
            assert(records.deep_view()[0] == a0);
            assert(records@[0].deep_view().len() == records@[0]@.len());
            if i > 0 {
                let rows = orig.spec_out().0;
                assert(records.deep_view()[i] == processed.map_values(
                    |row: Seq<ValueS>| spec_render_row(row),
                )[i - 1]);
                assert(records.deep_view()[i] == spec_render_row(processed[i - 1]));
                assert(processed[i - 1] == rows[i - 1]);
                assert(rows[i - 1].len() == a0.len());
                assert(spec_render_row(rows[i - 1]).len() == rows[i - 1].len());
            }
        }
        assert(records.deep_view() =~~= seq![a0] + orig.spec_out().0.map_values(
            |row: Seq<ValueS>| spec_render_row(row),
        ));
    }
    Ok(csv_write(&records))
}

/// The attribute list a plan's finished tree reports over a parsed table.
pub open spec fn spec_plan_attrs(plan: QueryPlan, header: Seq<Seq<char>>) -> Result<
    Seq<Seq<char>>,
    EngineError,
> {
    match plan.projected {
        Some(items) => spec_proj_attrs(items@, Ok(header)),
        None => Ok(header),
    }
}

/// The row stream a plan's finished tree produces over a parsed table.
pub open spec fn spec_plan_stream(
    plan: QueryPlan,
    header: Seq<Seq<char>>,
    recs: Seq<Seq<Seq<char>>>,
) -> (Seq<Seq<ValueS>>, Option<EngineError>) {
    let scan = (spec_infer_rows(recs), None::<EngineError>);
    let filtered = match plan.selection {
        Some(e) => spec_sel_stream(e, Ok(header), scan.0, scan.1),
        None => scan,
    };
    match plan.projected {
        Some(items) => spec_proj_stream(items@, Ok(header), filtered.0, filtered.1),
        None => filtered,
    }
}

/// Everything one run of a plan against one file produces, as a function
/// of the plan and the file's bytes alone.
pub open spec fn spec_run(plan: QueryPlan, bytes: Seq<u8>) -> Result<Seq<u8>, EngineError> {
    match csv_table_of(bytes) {
        None => Err(EngineError::BadSource),
        Some(table) => match spec_plan_attrs(plan, table.0) {
            Err(e) => Err(e),
            Ok(attrs) => {
                let stream = spec_plan_stream(plan, table.0, table.1);
                match stream.1 {
                    Some(e) => Err(e),
                    None => Ok(
                        csv_encoding_of(
                            seq![attrs] + stream.0.map_values(
                                |row: Seq<ValueS>| spec_render_row(row),
                            ),
                        ),
                    ),
                }
            },
        },
    }
}

/// Run one plan against the bytes of the file it names: build the scan,
/// wrap it as planned, pull it to the end, and encode the result. The
/// optional text is the codec's message for a truncated scan, meant for
/// the diagnostic stream.
pub fn run_plan(plan: QueryPlan, file_bytes: &Vec<u8>) -> (r: Result<
    (Vec<u8>, Option<String>),
    EngineError,
>)
    ensures
        match r {
            Ok(p) => spec_run(plan, file_bytes@) == Ok::<Seq<u8>, EngineError>(p.0@),
            Err(e) => spec_run(plan, file_bytes@) == Err::<Seq<u8>, EngineError>(e),
        },
{
    let ghost plan0 = plan;
    let (scan, diagnostic) = match SequentialScan::from_csv(file_bytes) {
        Ok(p) => p,
        Err(e) => {
            return Err(e);
        },
    };
    let ghost table = csv_table_of(file_bytes@)->Some_0;
    let tree = query_as_relation(plan, scan);
    let ghost gtree = tree;
    proof {
        let smap = scan.spec_rows();
        let tmap = spec_infer_rows(table.1);
        assert(scan.records.deep_view().skip(0) =~~= scan.records.deep_view());
        assert(smap == tmap);
        let base = Rel::Scan(scan);
        assert(base.spec_attrs() == Ok::<Seq<Seq<char>>, EngineError>(table.0));
        assert(base.spec_out() == (tmap, None::<EngineError>));
        match plan0.projected {
            Some(items) => {
                match gtree {
                    Rel::Projection { projected, relation } => {
                        assert(projected@ == items@);
                        assert(spec_sel_layer(plan0, scan, *relation));
                        match plan0.selection {
                            Some(e) => {
                                assert((*relation).spec_attrs() == base.spec_attrs());
                                assert((*relation).spec_out() == spec_sel_stream(
                                    e,
                                    Ok(table.0),
                                    tmap,
                                    None::<EngineError>,
                                ));
                                match *relation {
                                    Rel::Selection { relation: inner, .. } => {
                                        assert((*inner).wf());
                                        assert((*relation).wf());
                                    },
                                    _ => {
                                        assert(false);
                                    },
                                }
                                assert(tree.wf());
                            },
                            None => {
                                assert(*relation == base);
                                assert((*relation).wf());
                                assert(tree.wf());
                            },
                        }
                    },
                    _ => {
                        assert(false);
                    },
                }
            },
            None => {
                match plan0.selection {
                    Some(e) => {
                        assert(tree.spec_attrs() == base.spec_attrs());
                        assert(tree.spec_out() == spec_sel_stream(
                            e,
                            Ok(table.0),
                            tmap,
                            None::<EngineError>,
                        ));
                        match gtree {
                            Rel::Selection { relation: inner, .. } => {
                                assert((*inner).wf());
                                assert(tree.wf());
                            },
                            _ => {
                                assert(false);
                            },
                        }
                    },
                    None => {
                        assert(tree == base);
                        assert(tree.wf());
                    },
                }
            },
        }
        assert(tree.spec_attrs() == spec_plan_attrs(plan0, table.0));
        assert(tree.spec_out() == spec_plan_stream(plan0, table.0, table.1));
        assert(tree.wf());
    }
    match execute(tree) {
        Ok(bytes) => Ok((bytes, diagnostic)),
        Err(e) => Err(e),
    }
}

/// Idempotence: what a run returns is a function of the plan and the
/// file's bytes alone, so re-running an unchanged query against an
/// unchanged file yields byte-identical output.
pub proof fn lemma_run_idempotent(
    plan: QueryPlan,
    bytes: Seq<u8>,
    r1: Result<Seq<u8>, EngineError>,
    r2: Result<Seq<u8>, EngineError>,
)
    requires
        r1 == spec_run(plan, bytes),
        r2 == spec_run(plan, bytes),
    ensures
        r1 == r2,
{
}

} // verus!
