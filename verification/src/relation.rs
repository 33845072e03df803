use vstd::prelude::*;
use crate::value::Value;
use crate::value::ValueS;
use crate::value::spec_infer;
use crate::value::spec_truthy;
use crate::value::infer;
use crate::ast::EngineError;
use crate::ast::Expr;
use crate::ast::SelectItem;
use crate::eval::spec_eval;
use crate::eval::spec_find_col;
use crate::eval::eval_expr_on_row;
use crate::eval::find_col;

verus! {

/// The typed row a raw CSV record denotes: every field inferred.
pub open spec fn spec_infer_row(rec: Seq<Seq<char>>) -> Seq<ValueS> {
    rec.map_values(|c: Seq<char>| spec_infer(c))
}

/// The typed rows a sequence of raw records denotes.
pub open spec fn spec_infer_rows(recs: Seq<Seq<Seq<char>>>) -> Seq<Seq<ValueS>> {
    recs.map_values(|rec: Seq<Seq<char>>| spec_infer_row(rec))
}

/// Infer the typed row of one raw record.
pub fn infer_row(rec: &Vec<String>) -> (row: Vec<Value>)
    ensures
        row.deep_view() == spec_infer_row(rec.deep_view()),
{
    let mut row: Vec<Value> = Vec::new();
    let mut i: usize = 0;
    while i < rec.len()
        invariant
            0 <= i <= rec.len(),
            row.deep_view() == spec_infer_row(rec.deep_view()).take(i as int),
        decreases rec.len() - i,
    {
        proof {
            assert(row.deep_view().len() == row@.len());
            assert(spec_infer_row(rec.deep_view()).len() == rec@.len());
        }
        row.push(infer(rec[i].clone()));
        proof {
            assert(row.deep_view() =~~= spec_infer_row(rec.deep_view()).take(i + 1));
        }
        i += 1;
    }
    proof {
        assert(spec_infer_row(rec.deep_view()).take(rec@.len() as int) =~~= spec_infer_row(
            rec.deep_view(),
        ));
    }
    row
}

fn clone_string_vec(v: &Vec<String>) -> (r: Vec<String>)
    ensures
        r.deep_view() == v.deep_view(),
{
    let mut r: Vec<String> = Vec::new();
    let mut i: usize = 0;
    while i < v.len()
        invariant
            0 <= i <= v.len(),
            r.deep_view() == v.deep_view().take(i as int),
        decreases v.len() - i,
    {
        proof {
            assert(r.deep_view().len() == r@.len());
        }
        r.push(v[i].clone());
        proof {
            assert(r.deep_view() =~~= v.deep_view().take(i + 1));
        }
        i += 1;
    }
    proof {
        assert(v.deep_view().take(v@.len() as int) =~~= v.deep_view());
    }
    r
}

/// The scan leaf: one CSV source, already split into a header and raw data
/// records, consumed once, front to back, through `cursor`.
pub struct SequentialScan {
    pub header: Vec<String>,
    pub records: Vec<Vec<String>>,
    pub cursor: usize,
}

impl SequentialScan {
    /// Every data record carries exactly one field per header column, as
    /// the CSV codec guarantees, and the cursor never passes the end.
    pub open spec fn wf(self) -> bool {
        &&& self.cursor <= self.records@.len()
        &&& forall|i: int|
            0 <= i < self.records@.len() ==> (#[trigger] self.records@[i])@.len()
                == self.header@.len()
    }

    /// The typed rows this scan has still to produce.
    pub open spec fn spec_rows(self) -> Seq<Seq<ValueS>> {
        spec_infer_rows(self.records.deep_view().skip(self.cursor as int))
    }
}

/// The operator tree: a closed set of relation variants, each owning
/// exactly one child (scan leaves own none), built once per query.
pub enum Rel {
    Scan(SequentialScan),
    Selection { selection: Expr, relation: Box<Rel> },
    Projection { projected: Vec<SelectItem>, relation: Box<Rel> },
}

/// The attribute list a projection reports: targets in order, the wildcard
/// expanded against the child's current attributes, a plain column under
/// its alias when one is given, else under its own name.
pub open spec fn spec_proj_attrs(
    items: Seq<SelectItem>,
    child: Result<Seq<Seq<char>>, EngineError>,
) -> Result<Seq<Seq<char>>, EngineError>
    decreases items.len(),
{
    if items.len() == 0 {
        Ok(Seq::empty())
    } else {
        let rest = spec_proj_attrs(items.drop_first(), child);
        match items[0] {
            SelectItem::Wildcard => match child {
                Err(e) => Err(e),
                Ok(ca) => match rest {
                    Err(e) => Err(e),
                    Ok(ra) => Ok(ca + ra),
                },
            },
            SelectItem::Column { name, alias } => match rest {
                Err(e) => Err(e),
                Ok(ra) => Ok(
                    seq![
                        match alias {
                            Some(a) => a@,
                            None => name@,
                        },
                    ] + ra,
                ),
            },
            SelectItem::Unsupported => Err(EngineError::UnsupportedConstruct),
        }
    }
}

/// The row a projection produces from one child row: cells copied in
/// target order, the wildcard splicing the whole child row in place,
/// a named column copied from its first matching position.
pub open spec fn spec_project_row(
    items: Seq<SelectItem>,
    cattrs: Seq<Seq<char>>,
    row: Seq<ValueS>,
) -> Result<Seq<ValueS>, EngineError>
    decreases items.len(),
{
    if items.len() == 0 {
        Ok(Seq::empty())
    } else {
        let rest = spec_project_row(items.drop_first(), cattrs, row);
        match items[0] {
            SelectItem::Wildcard => match rest {
                Err(e) => Err(e),
                Ok(r) => Ok(row + r),
            },
            SelectItem::Column { name, alias: _ } => match spec_find_col(cattrs, name@) {
                Some(i) => if i < row.len() {
                    match rest {
                        Err(e) => Err(e),
                        Ok(r) => Ok(seq![row[i]] + r),
                    }
                } else {
                    Err(EngineError::UnresolvedColumn)
                },
                None => Err(EngineError::UnresolvedColumn),
            },
            SelectItem::Unsupported => Err(EngineError::UnsupportedConstruct),
        }
    }
}

/// What a selection turns a child row stream into: rows whose predicate
/// evaluates truthy, in order, until the child ends or an evaluation
/// aborts; the first aborting row cuts the stream with its error.
pub open spec fn spec_sel_stream(
    pred: Expr,
    cattrs: Result<Seq<Seq<char>>, EngineError>,
    rows: Seq<Seq<ValueS>>,
    tail: Option<EngineError>,
) -> (Seq<Seq<ValueS>>, Option<EngineError>)
    decreases rows.len(),
{
    if rows.len() == 0 {
        (Seq::empty(), tail)
    } else {
        match cattrs {
            Err(e) => (Seq::empty(), Some(e)),
            Ok(a) => match spec_eval(pred, a, rows[0]) {
                Err(e) => (Seq::empty(), Some(e)),
                Ok(v) => {
                    let rest = spec_sel_stream(pred, cattrs, rows.drop_first(), tail);
                    if spec_truthy(v) {
                        (seq![rows[0]] + rest.0, rest.1)
                    } else {
                        rest
                    }
                },
            },
        }
    }
}

/// What a projection turns a child row stream into: each child row
/// projected in order; an unreadable child attribute list or a failing
/// projection cuts the stream with its error.
pub open spec fn spec_proj_stream(
    items: Seq<SelectItem>,
    cattrs: Result<Seq<Seq<char>>, EngineError>,
    rows: Seq<Seq<ValueS>>,
    tail: Option<EngineError>,
) -> (Seq<Seq<ValueS>>, Option<EngineError>)
    decreases rows.len(),
{
    match cattrs {
        Err(e) => (Seq::empty(), Some(e)),
        Ok(a) => if rows.len() == 0 {
            (Seq::empty(), tail)
        } else {
            match spec_project_row(items, a, rows[0]) {
                Err(e) => (Seq::empty(), Some(e)),
                Ok(pr) => {
                    let rest = spec_proj_stream(items, cattrs, rows.drop_first(), tail);
                    (seq![pr] + rest.0, rest.1)
                },
            }
        },
    }
}

impl Rel {
    /// Well-formedness of the whole tree: the scan at the leaf is sound.
    pub open spec fn wf(self) -> bool
        decreases self,
    {
        match self {
            Rel::Scan(s) => s.wf(),
            Rel::Selection { relation, .. } => relation.wf(),
            Rel::Projection { relation, .. } => relation.wf(),
        }
    }

    /// The ordered column-name list this relation reports, recomputed on
    /// demand: a scan's header, a selection's child list unchanged, a
    /// projection's target list expanded.
    pub open spec fn spec_attrs(self) -> Result<Seq<Seq<char>>, EngineError>
        decreases self,
    {
        match self {
            Rel::Scan(s) => Ok(s.header.deep_view()),
            Rel::Selection { relation, .. } => relation.spec_attrs(),
            Rel::Projection { projected, relation } => spec_proj_attrs(
                projected@,
                relation.spec_attrs(),
            ),
        }
    }

    /// The remaining output of this relation: the rows still to be
    /// produced, and the error that will cut the stream, if any.
    pub open spec fn spec_out(self) -> (Seq<Seq<ValueS>>, Option<EngineError>)
        decreases self,
    {
        match self {
            Rel::Scan(s) => (s.spec_rows(), None),
            Rel::Selection { selection, relation } => spec_sel_stream(
                selection,
                relation.spec_attrs(),
                relation.spec_out().0,
                relation.spec_out().1,
            ),
            Rel::Projection { projected, relation } => spec_proj_stream(
                projected@,
                relation.spec_attrs(),
                relation.spec_out().0,
                relation.spec_out().1,
            ),
        }
    }

    /// An upper bound for the work one pull can take: the rows left under
    /// the cursor, plus one per operator layer.
    pub open spec fn fuel(self) -> nat
        decreases self,
    {
        match self {
            Rel::Scan(s) => if s.cursor <= s.records@.len() {
                (s.records@.len() - s.cursor) as nat
            } else {
                0
            },
            Rel::Selection { relation, .. } => relation.fuel() + 1,
            Rel::Projection { relation, .. } => relation.fuel() + 1,
        }
    }
}

/// A selection only keeps rows; it never yields one the child did not.
proof fn lemma_sel_stream_nonempty(
    pred: Expr,
    cattrs: Result<Seq<Seq<char>>, EngineError>,
    rows: Seq<Seq<ValueS>>,
    tail: Option<EngineError>,
)
    ensures
        spec_sel_stream(pred, cattrs, rows, tail).0.len() > 0 ==> rows.len() > 0 && cattrs is Ok,
    decreases rows.len(),
{
    if rows.len() > 0 && cattrs is Ok {
        match spec_eval(pred, cattrs->Ok_0, rows[0]) {
            Ok(v) => {
                lemma_sel_stream_nonempty(pred, cattrs, rows.drop_first(), tail);
            },
            Err(_) => {},
        }
    }
}

/// A row that projects cleanly means the projected attribute list is
/// clean as well: both fail only on unsupported target shapes or, for the
/// attribute list, an unreadable child list under a wildcard.
proof fn lemma_proj_row_ok_attrs(items: Seq<SelectItem>, a: Seq<Seq<char>>, row: Seq<ValueS>)
    requires
        spec_project_row(items, a, row) is Ok,
    ensures
        spec_proj_attrs(items, Ok(a)) is Ok,
    decreases items.len(),
{
    if items.len() > 0 {
        lemma_proj_row_ok_attrs(items.drop_first(), a, row);
    }
}

/// A relation that still has rows to produce reports its attributes
/// cleanly: row production fails earlier than attribute reporting does.
pub proof fn lemma_rows_attrs_ok(r: Rel)
    requires
        r.wf(),
    ensures
        r.spec_out().0.len() > 0 ==> r.spec_attrs() is Ok,
    decreases r,
{
    match r {
        Rel::Scan(_) => {},
        Rel::Selection { selection, relation } => {
            lemma_rows_attrs_ok(*relation);
            lemma_sel_stream_nonempty(
                selection,
                relation.spec_attrs(),
                relation.spec_out().0,
                relation.spec_out().1,
            );
        },
        Rel::Projection { projected, relation } => {
            if r.spec_out().0.len() > 0 {
                match relation.spec_attrs() {
                    Ok(a) => {
                        if relation.spec_out().0.len() > 0 {
                            lemma_proj_row_ok_attrs(projected@, a, relation.spec_out().0[0]);
                        }
                    },
                    Err(_) => {},
                }
            }
        },
    }
}

/// A target list of one bare wildcard reproduces the child's attribute
/// list and every row unchanged.
pub proof fn lemma_wildcard_identity(a: Seq<Seq<char>>, row: Seq<ValueS>)
    ensures
        spec_proj_attrs(seq![SelectItem::Wildcard], Ok(a)) == Ok::<Seq<Seq<char>>, EngineError>(a),
        spec_project_row(seq![SelectItem::Wildcard], a, row) == Ok::<Seq<ValueS>, EngineError>(row),
{
    let items = seq![SelectItem::Wildcard];
    reveal_with_fuel(spec_proj_attrs, 2);
    reveal_with_fuel(spec_project_row, 2);
    assert(items.drop_first().len() == 0);
    assert(items[0] == SelectItem::Wildcard);
    assert(a + Seq::<Seq<char>>::empty() =~~= a);
    assert(row + Seq::<ValueS>::empty() =~~= row);
}

/// A clean projection of a full-width row is exactly as wide as the
/// projected attribute list.
proof fn lemma_project_row_len(items: Seq<SelectItem>, a: Seq<Seq<char>>, row: Seq<ValueS>)
    requires
        row.len() == a.len(),
        spec_project_row(items, a, row) is Ok,
        spec_proj_attrs(items, Ok(a)) is Ok,
    ensures
        spec_project_row(items, a, row)->Ok_0.len() == spec_proj_attrs(items, Ok(a))->Ok_0.len(),
    decreases items.len(),
{
    if items.len() > 0 {
        lemma_project_row_len(items.drop_first(), a, row);
    }
}

proof fn lemma_sel_stream_arity(
    pred: Expr,
    cattrs: Result<Seq<Seq<char>>, EngineError>,
    rows: Seq<Seq<ValueS>>,
    tail: Option<EngineError>,
    w: int,
)
    requires
        forall|j: int| 0 <= j < rows.len() ==> (#[trigger] rows[j]).len() == w,
    ensures
        forall|j: int|
            0 <= j < spec_sel_stream(pred, cattrs, rows, tail).0.len() ==> (
            #[trigger] spec_sel_stream(pred, cattrs, rows, tail).0[j]).len() == w,
    decreases rows.len(),
{
    if rows.len() > 0 && cattrs is Ok {
        match spec_eval(pred, cattrs->Ok_0, rows[0]) {
            Ok(v) => {
                assert(forall|j: int|
                    0 <= j < rows.drop_first().len() ==> (#[trigger] rows.drop_first()[j]).len()
                        == w);
                lemma_sel_stream_arity(pred, cattrs, rows.drop_first(), tail, w);
                let out = spec_sel_stream(pred, cattrs, rows, tail).0;
                let rest = spec_sel_stream(pred, cattrs, rows.drop_first(), tail).0;
                if spec_truthy(v) {
                    assert forall|j: int| 0 <= j < out.len() implies (#[trigger] out[j]).len()
                        == w by {
                        if j == 0 {
                            assert(out[j] == rows[0]);
                            assert(rows[0].len() == w);
                        } else {
                            assert(out[j] == rest[j - 1]);
                        }
                    }
                }
            },
            Err(_) => {},
        }
    }
}

proof fn lemma_proj_stream_arity(
    items: Seq<SelectItem>,
    a: Seq<Seq<char>>,
    rows: Seq<Seq<ValueS>>,
    tail: Option<EngineError>,
)
    requires
        spec_proj_attrs(items, Ok(a)) is Ok,
        forall|j: int| 0 <= j < rows.len() ==> (#[trigger] rows[j]).len() == a.len(),
    ensures
        forall|j: int|
            0 <= j < spec_proj_stream(items, Ok(a), rows, tail).0.len() ==> (
            #[trigger] spec_proj_stream(items, Ok(a), rows, tail).0[j]).len() == spec_proj_attrs(
                items,
                Ok(a),
            )->Ok_0.len(),
    decreases rows.len(),
{
    if rows.len() > 0 {
        match spec_project_row(items, a, rows[0]) {
            Ok(pr) => {
                lemma_project_row_len(items, a, rows[0]);
                assert(forall|j: int|
                    0 <= j < rows.drop_first().len() ==> (#[trigger] rows.drop_first()[j]).len()
                        == a.len());
                lemma_proj_stream_arity(items, a, rows.drop_first(), tail);
                let w = spec_proj_attrs(items, Ok(a))->Ok_0.len();
                let out = spec_proj_stream(items, Ok(a), rows, tail).0;
                let rest = spec_proj_stream(items, Ok(a), rows.drop_first(), tail).0;
                assert forall|j: int| 0 <= j < out.len() implies (#[trigger] out[j]).len()
                    == w by {
                    if j == 0 {
                        assert(out[j] == pr);
                    } else {
                        assert(out[j] == rest[j - 1]);
                    }
                }
            },
            Err(_) => {},
        }
    }
}

/// The central arity invariant: for every relation and every produced
/// row, the row is exactly as long as the attribute list reported at
/// production time.
pub proof fn lemma_row_arity(r: Rel)
    requires
        r.wf(),
        r.spec_attrs() is Ok,
    ensures
        forall|j: int|
            0 <= j < r.spec_out().0.len() ==> (#[trigger] r.spec_out().0[j]).len()
                == r.spec_attrs()->Ok_0.len(),
    decreases r,
{
    match r {
        Rel::Scan(s) => {
            assert forall|j: int| 0 <= j < r.spec_out().0.len() implies (
            #[trigger] r.spec_out().0[j]).len() == r.spec_attrs()->Ok_0.len() by {
                let rec = s.records.deep_view().skip(s.cursor as int)[j];
                assert(rec == s.records@[s.cursor + j].deep_view());
                assert(r.spec_out().0[j] == spec_infer_row(rec));
            }
        },
        Rel::Selection { selection, relation } => {
            lemma_row_arity(*relation);
            lemma_sel_stream_arity(
                selection,
                relation.spec_attrs(),
                relation.spec_out().0,
                relation.spec_out().1,
                relation.spec_attrs()->Ok_0.len() as int,
            );
        },
        Rel::Projection { projected, relation } => {
            match relation.spec_attrs() {
                Ok(a) => {
                    lemma_row_arity(*relation);
                    lemma_proj_stream_arity(
                        projected@,
                        a,
                        relation.spec_out().0,
                        relation.spec_out().1,
                    );
                },
                Err(_) => {},
            }
        },
    }
}

impl Rel {
    /// Report the ordered column-name list, recomputed per call.
    #[verifier::loop_isolation(false)]
    pub fn attributes(&self) -> (r: Result<Vec<String>, EngineError>)
        ensures
            match r {
                Ok(a) => self.spec_attrs() == Ok::<Seq<Seq<char>>, EngineError>(a.deep_view()),
                Err(e) => self.spec_attrs() == Err::<Seq<Seq<char>>, EngineError>(e),
            },
        decreases *self,
    {
        match self {
            Rel::Scan(s) => Ok(clone_string_vec(&s.header)),
            Rel::Selection { relation, .. } => relation.attributes(),
            Rel::Projection { projected, relation } => {
                let ghost items = projected@;
                let ghost cres = relation.spec_attrs();
                let mut out: Vec<String> = Vec::new();
                let mut i: usize = 0;
                proof {
                    assert(items.skip(0) =~~= items);
                    match spec_proj_attrs(items, cres) {
                        Ok(rest) => {
                            assert(Seq::<Seq<char>>::empty() + rest =~~= rest);
                        },
                        Err(_) => {},
                    }
                }
                while i < projected.len()
                    invariant
                        0 <= i <= projected.len(),
                        spec_proj_attrs(items, cres) == match spec_proj_attrs(
                            items.skip(i as int),
                            cres,
                        ) {
                            Ok(rest) => Ok::<Seq<Seq<char>>, EngineError>(out.deep_view() + rest),
                            Err(e) => Err::<Seq<Seq<char>>, EngineError>(e),
                        },
                    decreases projected.len() - i,
                {
                    proof {
                        assert(items.skip(i as int)[0] == items[i as int]);
                        assert(items.skip(i as int).drop_first() =~~= items.skip(i + 1));
                    }
                    match &projected[i] {
                        SelectItem::Wildcard => {
                            match relation.attributes() {
                                Ok(ca) => {
                                    let ghost snap = out.deep_view();
                                    let mut j: usize = 0;
                                    proof {
                                        assert(snap + ca.deep_view().take(0) =~~= snap);
                                    }
                                    while j < ca.len()
                                        invariant
                                            0 <= j <= ca.len(),
                                            out.deep_view() == snap + ca.deep_view().take(j as int),
                                        decreases ca.len() - j,
                                    {
                                        let ghost pre = out.deep_view();
                                        proof {
                                            assert(pre.len() == out@.len());
                                            assert(ca.deep_view().len() == ca@.len());
                                        }
                                        out.push(ca[j].clone());
                                        proof {
                                            let post = snap + ca.deep_view().take(j + 1);
                                            assert(out.deep_view().len() == out@.len());
                                            assert forall|k: int|
                                                0 <= k < out.deep_view().len() implies out.deep_view()[k]
                                                == post[k] by {
                                                if k < pre.len() {
                                                    assert(out@[k] == out@.subrange(
                                                        0,
                                                        pre.len() as int,
                                                    )[k]);
                                                    assert(out.deep_view()[k] == pre[k]);
                                                } else {
                                                    assert(out.deep_view()[k] == ca@[
                                                        j as int].deep_view());
                                                }
                                            }
                                            assert(out.deep_view() =~~= post);
                                        }
                                        j += 1;
                                    }
                                    proof {
                                        assert(ca.deep_view().take(ca@.len() as int)
                                            =~~= ca.deep_view());
                                        assert(match spec_proj_attrs(items.skip(i + 1), cres) {
                                            Ok(rest) => spec_proj_attrs(items, cres)
                                                == Ok::<Seq<Seq<char>>, EngineError>(
                                                out.deep_view() + rest,
                                            ),
                                            Err(e) => spec_proj_attrs(items, cres)
                                                == Err::<Seq<Seq<char>>, EngineError>(e),
                                        }) by {
                                            match spec_proj_attrs(items.skip(i + 1), cres) {
                                                Ok(rest) => {
                                                    assert((snap + ca.deep_view()) + rest =~~= snap
                                                        + (ca.deep_view() + rest));
                                                },
                                                Err(_) => {},
                                            }
                                        }
                                    }
                                },
                                Err(e) => {
                                    return Err(e);
                                },
                            }
                        },
                        SelectItem::Column { name, alias } => {
                            let ghost snap = out.deep_view();
                            proof {
                                assert(out.deep_view().len() == out@.len());
                            }
                            match alias {
                                Some(a) => out.push(a.clone()),
                                None => out.push(name.clone()),
                            }
                            proof {
                                let nm = match items[i as int] {
                                    SelectItem::Column { name, alias } => match alias {
                                        Some(a) => a@,
                                        None => name@,
                                    },
                                    _ => Seq::empty(),
                                };
                                assert(out.deep_view() =~~= snap + seq![nm]);
                                match spec_proj_attrs(items.skip(i + 1), cres) {
                                    Ok(rest) => {
                                        assert((snap + seq![nm]) + rest =~~= snap + (seq![nm]
                                            + rest));
                                    },
                                    Err(_) => {},
                                }
                            }
                        },
                        SelectItem::Unsupported => {
                            return Err(EngineError::UnsupportedConstruct);
                        },
                    }
                    i += 1;
                }
                proof {
                    assert(items.skip(items.len() as int).len() == 0);
                    assert(out.deep_view() + Seq::<Seq<char>>::empty() =~~= out.deep_view());
                }
                Ok(out)
            },
        }
    }
}

/// Project one child row through the target list.
#[verifier::loop_isolation(false)]
fn project_row(projected: &Vec<SelectItem>, cattrs: &Vec<String>, row: &Vec<Value>) -> (r: Result<
    Vec<Value>,
    EngineError,
>)
    ensures
        match r {
            Ok(out) => spec_project_row(projected@, cattrs.deep_view(), row.deep_view())
                == Ok::<Seq<ValueS>, EngineError>(out.deep_view()),
            Err(e) => spec_project_row(projected@, cattrs.deep_view(), row.deep_view())
                == Err::<Seq<ValueS>, EngineError>(e),
        },
{
    let ghost items = projected@;
    let ghost a = cattrs.deep_view();
    let ghost vrow = row.deep_view();
    let mut out: Vec<Value> = Vec::new();
    let mut i: usize = 0;
    proof {
        assert(items.skip(0) =~~= items);
        match spec_project_row(items, a, vrow) {
            Ok(rest) => {
                assert(Seq::<ValueS>::empty() + rest =~~= rest);
            },
            Err(_) => {},
        }
    }
    while i < projected.len()
        invariant
            0 <= i <= projected.len(),
            spec_project_row(items, a, vrow) == match spec_project_row(
                items.skip(i as int),
                a,
                vrow,
            ) {
                Ok(rest) => Ok::<Seq<ValueS>, EngineError>(out.deep_view() + rest),
                Err(e) => Err::<Seq<ValueS>, EngineError>(e),
            },
        decreases projected.len() - i,
    {
        proof {
            assert(items.skip(i as int)[0] == items[i as int]);
            assert(items.skip(i as int).drop_first() =~~= items.skip(i + 1));
        }
        match &projected[i] {
            SelectItem::Wildcard => {
                let ghost snap = out.deep_view();
                let mut j: usize = 0;
                proof {
                    assert(snap + vrow.take(0) =~~= snap);
                }
                while j < row.len()
                    invariant
                        0 <= j <= row.len(),
                        out.deep_view() == snap + vrow.take(j as int),
                    decreases row.len() - j,
                {
                    let ghost pre = out.deep_view();
                    proof {
                        assert(pre.len() == out@.len());
                        assert(vrow.len() == row@.len());
                    }
                    out.push(row[j].dup());
                    proof {
                        let post = snap + vrow.take(j + 1);
                        assert(out.deep_view().len() == out@.len());
                        assert forall|k: int|
                            0 <= k < out.deep_view().len() implies out.deep_view()[k] == post[k] by {
                            if k < pre.len() {
                                assert(out@[k] == out@.subrange(0, pre.len() as int)[k]);
                                assert(out.deep_view()[k] == pre[k]);
                            } else {
                                assert(out.deep_view()[k] == row@[j as int].deep_view());
                            }
                        }
                        assert(out.deep_view() =~~= post);
                    }
                    j += 1;
                }
                proof {
                    assert(vrow.take(row@.len() as int) =~~= vrow);
                    match spec_project_row(items.skip(i + 1), a, vrow) {
                        Ok(rest) => {
                            assert((snap + vrow) + rest =~~= snap + (vrow + rest));
                        },
                        Err(_) => {},
                    }
                }
            },
            SelectItem::Column { name, alias: _ } => {
                match find_col(cattrs, name.as_str()) {
                    Some(p) => {
                        if p < row.len() {
                            let ghost snap = out.deep_view();
                            proof {
                                assert(out.deep_view().len() == out@.len());
                            }
                            out.push(row[p].dup());
                            proof {
                                assert(out.deep_view() =~~= snap + seq![vrow[p as int]]);
                                match spec_project_row(items.skip(i + 1), a, vrow) {
                                    Ok(rest) => {
                                        assert((snap + seq![vrow[p as int]]) + rest =~~= snap + (
                                        seq![vrow[p as int]] + rest));
                                    },
                                    Err(_) => {},
                                }
                            }
                        } else {
                            return Err(EngineError::UnresolvedColumn);
                        }
                    },
                    None => {
                        return Err(EngineError::UnresolvedColumn);
                    },
                }
            },
            SelectItem::Unsupported => {
                return Err(EngineError::UnsupportedConstruct);
            },
        }
        i += 1;
    }
    proof {
        assert(items.skip(items.len() as int).len() == 0);
        assert(out.deep_view() + Seq::<ValueS>::empty() =~~= out.deep_view());
    }
    Ok(out)
}

impl Rel {
    /// Produce the next row, or report the end of the relation, or abort
    /// with the first fatal condition. One call pulls at most one row
    /// from each operator on the way down, except that a selection keeps
    /// pulling until a row passes or the child ends.
    #[verifier::loop_isolation(false)]
    pub fn next(self) -> (res: (Rel, Result<Option<Vec<Value>>, EngineError>))
        requires
            self.wf(),
        ensures
            res.0.wf(),
            res.0.spec_attrs() == self.spec_attrs(),
            res.0.fuel() <= self.fuel(),
            match res.1 {
                Ok(Some(row)) => {
                    &&& self.spec_out().0.len() > 0
                    &&& row.deep_view() == self.spec_out().0[0]
                    &&& res.0.spec_out().0 == self.spec_out().0.drop_first()
                    &&& res.0.spec_out().1 == self.spec_out().1
                    &&& res.0.fuel() < self.fuel()
                },
                Ok(None) => {
                    &&& self.spec_out().0.len() == 0
                    &&& self.spec_out().1 is None
                    &&& res.0.spec_out().0.len() == 0
                    &&& res.0.spec_out().1 is None
                },
                Err(e) => self.spec_out().0.len() == 0 && self.spec_out().1 == Some(e),
            },
        decreases self.fuel(),
    {
        match self {
            Rel::Scan(mut s) => {
                if s.cursor < s.records.len() {
                    let row = infer_row(&s.records[s.cursor]);
                    let ghost before = s;
                    s.cursor = s.cursor + 1;
                    proof {
                        let all = before.records.deep_view();
                        assert(before.spec_rows()[0] == spec_infer_row(
                            all.skip(before.cursor as int)[0],
                        ));
                        assert(all.skip(before.cursor as int)[0] == all[before.cursor as int]);
                        assert(s.spec_rows() =~~= before.spec_rows().drop_first());
                    }
                    (Rel::Scan(s), Ok(Some(row)))
                } else {
                    (Rel::Scan(s), Ok(None))
                }
            },
            Rel::Selection { selection, mut relation } => {
                let ghost cattrs = relation.spec_attrs();
                let ghost target = spec_sel_stream(
                    selection,
                    cattrs,
                    relation.spec_out().0,
                    relation.spec_out().1,
                );
                let ghost fuel0 = relation.fuel();
                loop
                    invariant
                        relation.wf(),
                        relation.spec_attrs() == cattrs,
                        relation.fuel() <= fuel0,
                        spec_sel_stream(
                            selection,
                            cattrs,
                            relation.spec_out().0,
                            relation.spec_out().1,
                        ) == target,
                    decreases relation.spec_out().0.len(),
                {
                    let ghost child_before = *relation;
                    let (c2, r) = (*relation).next();
                    relation = Box::new(c2);
                    match r {
                        Ok(None) => {
                            return (Rel::Selection { selection, relation }, Ok(None));
                        },
                        Err(e) => {
                            return (Rel::Selection { selection, relation }, Err(e));
                        },
                        Ok(Some(row)) => {
                            proof {
                                lemma_rows_attrs_ok(child_before);
                            }
                            match relation.attributes() {
                                Err(e) => {
                                    proof {
                                        assert(false);
                                    }
                                    return (Rel::Selection { selection, relation }, Err(e));
                                },
                                Ok(attrs_vec) => {
                                    match eval_expr_on_row(&selection, &attrs_vec, &row) {
                                        Err(e) => {
                                            return (
                                                Rel::Selection { selection, relation },
                                                Err(e),
                                            );
                                        },
                                        Ok(v) => {
                                            let keep = crate::value::eval_value_as_bool(v);
                                            if keep {
                                                return (
                                                    Rel::Selection { selection, relation },
                                                    Ok(Some(row)),
                                                );
                                            }
                                        },
                                    }
                                },
                            }
                        },
                    }
                }
            },
            Rel::Projection { projected, mut relation } => {
                let cattrs_vec = match relation.attributes() {
                    Ok(a) => a,
                    Err(e) => {
                        return (Rel::Projection { projected, relation }, Err(e));
                    },
                };
                let (c2, r) = (*relation).next();
                relation = Box::new(c2);
                match r {
                    Ok(None) => (Rel::Projection { projected, relation }, Ok(None)),
                    Err(e) => (Rel::Projection { projected, relation }, Err(e)),
                    Ok(Some(row)) => match project_row(&projected, &cattrs_vec, &row) {
                        Ok(out_row) => (Rel::Projection { projected, relation }, Ok(Some(out_row))),
                        Err(e) => (Rel::Projection { projected, relation }, Err(e)),
                    },
                }
            },
        }
    }
}

} // verus!
