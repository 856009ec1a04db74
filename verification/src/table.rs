//! A table of named columns whose cells are (possibly missing) text values,
//! and the application of a transformation plan to it.

use crate::transform::{
    cells_fit, column_fits, needs_fit, plan_view, transform_cells, transform_column, TransformKind,
    Transformation, TransformationView,
};
use vstd::prelude::*;

verus! {

/// One column: its name, whether it holds text, and its cells.
#[derive(Debug)]
pub struct Column {
    pub name: String,
    pub is_text: bool,
    pub cells: Vec<Option<String>>,
}

/// The abstract value of a column.
pub struct ColumnView {
    pub name: Seq<char>,
    pub is_text: bool,
    pub cells: Seq<Option<Seq<char>>>,
}

impl View for Column {
    type V = ColumnView;

    open spec fn view(&self) -> ColumnView {
        ColumnView { name: self.name@, is_text: self.is_text, cells: self.cells.deep_view() }
    }
}

/// The abstract value of a list of columns.
pub open spec fn columns_view(columns: Seq<Column>) -> Seq<ColumnView> {
    columns.map_values(|c: Column| c@)
}

/// No two columns share a name.
pub open spec fn names_distinct(t: Seq<ColumnView>) -> bool {
    forall|i: int, j: int| 0 <= i < j < t.len() ==> #[trigger] t[i].name != #[trigger] t[j].name
}

/// All columns have as many cells as the first one.
pub open spec fn same_height(t: Seq<ColumnView>) -> bool {
    forall|i: int| 0 <= i < t.len() ==> #[trigger] t[i].cells.len() == t[0].cells.len()
}

/// A well-formed table: distinct column names and columns of equal height.
pub open spec fn table_wf(t: Seq<ColumnView>) -> bool {
    names_distinct(t) && same_height(t)
}

/// The number of rows of a table.
pub open spec fn table_height(t: Seq<ColumnView>) -> nat {
    if t.len() == 0 {
        0
    } else {
        t[0].cells.len()
    }
}

/// Some column of `t` is named `name`.
pub open spec fn has_column(t: Seq<ColumnView>, name: Seq<char>) -> bool {
    exists|i: int| 0 <= i < t.len() && #[trigger] t[i].name == name
}

/// The position of the column named `name` (unique in a well-formed table).
pub open spec fn column_position(t: Seq<ColumnView>, name: Seq<char>) -> int {
    choose|i: int| 0 <= i < t.len() && #[trigger] t[i].name == name
}

/// Why a table could not be built.
#[derive(Debug)]
pub enum TableError {
    /// Two columns carry this name.
    DuplicateColumn(String),
    /// The columns do not all have the same number of cells.
    RaggedColumns,
}

/// Why a transformation plan could not be applied.
#[derive(Debug)]
pub enum TransformError {
    /// The plan names a column that the table does not have.
    ColumnNotFound(String),
    /// The plan names a column that does not hold text.
    NotText(String),
    /// The plan upper- or lower-cases a column that exceeds the size limits of
    /// the case mappings (see `cells_fit`).
    TooLarge(String),
}

/// The abstract value of a `TransformError`.
pub enum TransformErrorView {
    ColumnNotFound(Seq<char>),
    NotText(Seq<char>),
    TooLarge(Seq<char>),
}

impl View for TransformError {
    type V = TransformErrorView;

    open spec fn view(&self) -> TransformErrorView {
        match self {
            TransformError::ColumnNotFound(n) => TransformErrorView::ColumnNotFound(n@),
            TransformError::NotText(n) => TransformErrorView::NotText(n@),
            TransformError::TooLarge(n) => TransformErrorView::TooLarge(n@),
        }
    }
}

/// The column `name` after one transformation of kind `kind`.
pub open spec fn apply_step(t: Seq<ColumnView>, kind: TransformKind, name: Seq<char>) -> Result<
    Seq<ColumnView>,
    TransformErrorView,
> {
    if !has_column(t, name) {
        Err(TransformErrorView::ColumnNotFound(name))
    } else {
        let i = column_position(t, name);
        if !t[i].is_text {
            Err(TransformErrorView::NotText(name))
        } else {
            Ok(
                t.update(
                    i,
                    ColumnView {
                        name: t[i].name,
                        is_text: t[i].is_text,
                        cells: transform_cells(kind, t[i].cells),
                    },
                ),
            )
        }
    }
}

/// The column named `name`, if it exists and holds text, is within the size
/// limits of the transformation of kind `kind`.
pub open spec fn step_fits(t: Seq<ColumnView>, kind: TransformKind, name: Seq<char>) -> bool {
    has_column(t, name) && t[column_position(t, name)].is_text && needs_fit(kind) ==> cells_fit(
        t[column_position(t, name)].cells,
    )
}

/// One step, refused with `TooLarge` where the column exceeds the size
/// limits of the case mappings.
pub open spec fn apply_step_checked(t: Seq<ColumnView>, kind: TransformKind, name: Seq<char>) -> Result<
    Seq<ColumnView>,
    TransformErrorView,
> {
    if has_column(t, name) && t[column_position(t, name)].is_text && !step_fits(t, kind, name) {
        Err(TransformErrorView::TooLarge(name))
    } else {
        apply_step(t, kind, name)
    }
}

/// The column `name` exists and holds text.
pub open spec fn name_valid(t: Seq<ColumnView>, name: Seq<char>) -> bool {
    has_column(t, name) && t[column_position(t, name)].is_text
}

/// One transformation kind applied to the listed columns, left to right; the
/// first failing column stops it.
pub open spec fn apply_columns(
    t: Seq<ColumnView>,
    kind: TransformKind,
    names: Seq<Seq<char>>,
) -> Result<Seq<ColumnView>, TransformErrorView>
    decreases names.len(),
{
    if names.len() == 0 {
        Ok(t)
    } else {
        match apply_step_checked(t, kind, names[0]) {
            Ok(t1) => apply_columns(t1, kind, names.drop_first()),
            Err(e) => Err(e),
        }
    }
}

/// A whole plan applied entry by entry; the first failing column stops it.
pub open spec fn apply_plan(t: Seq<ColumnView>, plan: Seq<TransformationView>) -> Result<
    Seq<ColumnView>,
    TransformErrorView,
>
    decreases plan.len(),
{
    if plan.len() == 0 {
        Ok(t)
    } else {
        match apply_columns(t, plan[0].kind, plan[0].columns) {
            Ok(t1) => apply_plan(t1, plan.drop_first()),
            Err(e) => Err(e),
        }
    }
}

/// Every column that the plan names exists and holds text.
pub open spec fn plan_targets_valid(t: Seq<ColumnView>, plan: Seq<TransformationView>) -> bool {
    forall|k: int, j: int|
        0 <= k < plan.len() && 0 <= j < plan[k].columns.len() ==> {
            &&& has_column(t, #[trigger] plan[k].columns[j])
            &&& t[column_position(t, plan[k].columns[j])].is_text
        }
}

/// The plan names the column `name` somewhere.
pub open spec fn plan_names(plan: Seq<TransformationView>, name: Seq<char>) -> bool {
    exists|k: int, j: int|
        0 <= k < plan.len() && 0 <= j < plan[k].columns.len() && #[trigger] plan[k].columns[j]
            == name
}

/// Two tables have the same shape: same columns, names, kinds and heights.
pub open spec fn same_shape(t: Seq<ColumnView>, u: Seq<ColumnView>) -> bool {
    &&& t.len() == u.len()
    &&& forall|i: int|
        0 <= i < t.len() ==> {
            &&& (#[trigger] u[i]).name == t[i].name
            &&& u[i].is_text == t[i].is_text
            &&& u[i].cells.len() == t[i].cells.len()
        }
}

/// A table of well-formed columns.
#[derive(Debug)]
pub struct Table {
    columns: Vec<Column>,
}

impl Table {
    #[verifier::type_invariant]
    spec fn inv(self) -> bool {
        table_wf(columns_view(self.columns@))
    }

    /// The abstract value of the table: its columns in order.
    pub closed spec fn view(&self) -> Seq<ColumnView> {
        columns_view(self.columns@)
    }
}

/// In a well-formed table the column found by name is the chosen one.
proof fn lemma_position_unique(t: Seq<ColumnView>, name: Seq<char>, i: int)
    requires
        names_distinct(t),
        0 <= i < t.len(),
        t[i].name == name,
    ensures
        has_column(t, name),
        column_position(t, name) == i,
{
    assert(has_column(t, name));
    let j = column_position(t, name);
    if j != i {
        if j < i {
            assert(t[j].name != t[i].name);
        } else {
            assert(t[i].name != t[j].name);
        }
    }
}

/// One step keeps the table's shape, and with it its well-formedness.
proof fn lemma_step_shape(t: Seq<ColumnView>, kind: TransformKind, name: Seq<char>)
    requires
        table_wf(t),
    ensures
        apply_step(t, kind, name) matches Ok(u) ==> same_shape(t, u) && table_wf(u),
        apply_step_checked(t, kind, name) matches Ok(u) ==> same_shape(t, u) && table_wf(u),
{
    if has_column(t, name) {
        let i = column_position(t, name);
        if t[i].is_text {
            let u = apply_step(t, kind, name)->Ok_0;
            assert(same_shape(t, u));
            assert forall|a: int, b: int| 0 <= a < b < u.len() implies #[trigger] u[a].name
                != #[trigger] u[b].name by {
                assert(u[a].name == t[a].name);
                assert(u[b].name == t[b].name);
            }
            assert forall|a: int| 0 <= a < u.len() implies #[trigger] u[a].cells.len()
                == u[0].cells.len() by {
                assert(u[a].cells.len() == t[a].cells.len());
                assert(u[0].cells.len() == t[0].cells.len());
            }
        }
    }
}

/// Same shape is an equivalence that keeps well-formedness.
proof fn lemma_same_shape_trans(t: Seq<ColumnView>, u: Seq<ColumnView>, v: Seq<ColumnView>)
    requires
        same_shape(t, u),
        same_shape(u, v),
    ensures
        same_shape(t, v),
{
    assert forall|i: int| 0 <= i < t.len() implies {
        &&& (#[trigger] v[i]).name == t[i].name
        &&& v[i].is_text == t[i].is_text
        &&& v[i].cells.len() == t[i].cells.len()
    } by {
        assert(u[i].name == t[i].name);
    }
}

/// Tables of the same shape find the same columns at the same places.
proof fn lemma_same_shape_positions(t: Seq<ColumnView>, u: Seq<ColumnView>, name: Seq<char>)
    requires
        table_wf(t),
        same_shape(t, u),
    ensures
        has_column(u, name) == has_column(t, name),
        has_column(t, name) ==> column_position(u, name) == column_position(t, name)
            && u[column_position(u, name)].is_text == t[column_position(t, name)].is_text,
{
    if has_column(t, name) {
        let i = column_position(t, name);
        assert(u[i].name == name);
        assert(has_column(u, name));
        assert forall|a: int, b: int| 0 <= a < b < u.len() implies #[trigger] u[a].name
            != #[trigger] u[b].name by {
            assert(u[a].name == t[a].name);
            assert(u[b].name == t[b].name);
        }
        lemma_position_unique(u, name, i);
    }
    if has_column(u, name) {
        let j = column_position(u, name);
        assert(t[j].name == u[j].name);
        assert(has_column(t, name));
    }
}

proof fn lemma_same_shape_refl(t: Seq<ColumnView>)
    ensures
        same_shape(t, t),
{
}

/// Applying the columns of one entry keeps the shape; it succeeds only when
/// every column exists and holds text, and fails for another reason than
/// size only when one of them does not.
proof fn lemma_columns_shape(t: Seq<ColumnView>, kind: TransformKind, names: Seq<Seq<char>>)
    requires
        table_wf(t),
    ensures
        apply_columns(t, kind, names) matches Ok(u) ==> same_shape(t, u) && table_wf(u),
        apply_columns(t, kind, names) is Ok ==> forall|j: int|
            0 <= j < names.len() ==> name_valid(t, #[trigger] names[j]),
        apply_columns(t, kind, names) matches Err(e) && !(e is TooLarge) ==> exists|j: int|
            0 <= j < names.len() && !name_valid(t, #[trigger] names[j]),
    decreases names.len(),
{
    if names.len() == 0 {
        lemma_same_shape_refl(t);
    } else {
        lemma_step_shape(t, kind, names[0]);
        match apply_step_checked(t, kind, names[0]) {
            Ok(t1) => {
                let rest = names.drop_first();
                lemma_columns_shape(t1, kind, rest);
                if let Ok(u) = apply_columns(t1, kind, rest) {
                    lemma_same_shape_trans(t, t1, u);
                }
                assert forall|j: int| 0 <= j < rest.len() implies name_valid(t1, #[trigger] rest[j])
                    == name_valid(t, rest[j]) by {
                    lemma_same_shape_positions(t, t1, rest[j]);
                }
                if apply_columns(t, kind, names) is Ok {
                    assert forall|j: int| 0 <= j < names.len() implies name_valid(
                        t,
                        #[trigger] names[j],
                    ) by {
                        if j > 0 {
                            assert(names[j] == rest[j - 1]);
                        }
                    }
                } else {
                    let e = apply_columns(t, kind, names)->Err_0;
                    if !(e is TooLarge) {
                        let w = choose|j: int| 0 <= j < rest.len() && !name_valid(t1, #[trigger] rest[j]);
                        assert(names[w + 1] == rest[w]);
                    }
                }
            },
            Err(e) => {
                if !(e is TooLarge) {
                    assert(!name_valid(t, names[0]));
                }
            },
        }
    }
}

/// Applying a plan keeps the shape; it succeeds only when every named column
/// exists and holds text, and fails for another reason than size only when
/// some named column does not.
proof fn lemma_plan_shape(t: Seq<ColumnView>, plan: Seq<TransformationView>)
    requires
        table_wf(t),
    ensures
        apply_plan(t, plan) matches Ok(u) ==> same_shape(t, u) && table_wf(u),
        apply_plan(t, plan) is Ok ==> plan_targets_valid(t, plan),
        apply_plan(t, plan) matches Err(e) && !(e is TooLarge) ==> !plan_targets_valid(t, plan),
    decreases plan.len(),
{
    if plan.len() == 0 {
        lemma_same_shape_refl(t);
    } else {
        lemma_columns_shape(t, plan[0].kind, plan[0].columns);
        match apply_columns(t, plan[0].kind, plan[0].columns) {
            Ok(t1) => {
                let rest = plan.drop_first();
                lemma_plan_shape(t1, rest);
                if let Ok(u) = apply_plan(t1, rest) {
                    lemma_same_shape_trans(t, t1, u);
                }
                assert forall|k: int, j: int|
                    0 <= k < rest.len() && 0 <= j < rest[k].columns.len() implies name_valid(
                    t1,
                    #[trigger] rest[k].columns[j],
                ) == name_valid(t, rest[k].columns[j]) by {
                    lemma_same_shape_positions(t, t1, rest[k].columns[j]);
                }
                if apply_plan(t, plan) is Ok {
                    assert forall|k: int, j: int|
                        0 <= k < plan.len() && 0 <= j < plan[k].columns.len() implies {
                        &&& has_column(t, #[trigger] plan[k].columns[j])
                        &&& t[column_position(t, plan[k].columns[j])].is_text
                    } by {
                        if k > 0 {
                            assert(plan[k] == rest[k - 1]);
                            assert(name_valid(t1, rest[k - 1].columns[j]));
                        } else {
                            assert(name_valid(t, plan[0].columns[j]));
                        }
                    }
                } else {
                    let e = apply_plan(t, plan)->Err_0;
                    if !(e is TooLarge) {
                        assert(!plan_targets_valid(t1, rest));
                        let (wk, wj) = choose|k: int, j: int|
                            0 <= k < rest.len() && 0 <= j < rest[k].columns.len() && !(has_column(
                                t1,
                                #[trigger] rest[k].columns[j],
                            ) && t1[column_position(t1, rest[k].columns[j])].is_text);
                        assert(!name_valid(t1, rest[wk].columns[wj]));
                        assert(plan[wk + 1] == rest[wk]);
                        assert(!name_valid(t, plan[wk + 1].columns[wj]));
                    }
                }
            },
            Err(e) => {
                if !(e is TooLarge) {
                    let w = choose|j: int|
                        0 <= j < plan[0].columns.len() && !name_valid(t, #[trigger] plan[0].columns[j]);
                    assert(!plan_targets_valid(t, plan)) by {
                        assert(plan[0].columns[w] == plan[0].columns[w]);
                    }
                }
            },
        }
    }
}

proof fn lemma_step_untouched(t: Seq<ColumnView>, kind: TransformKind, name: Seq<char>, i: int)
    requires
        table_wf(t),
        0 <= i < t.len(),
        t[i].name != name,
    ensures
        apply_step(t, kind, name) matches Ok(u) ==> u[i] == t[i],
        apply_step_checked(t, kind, name) matches Ok(u) ==> u[i] == t[i],
{
    if has_column(t, name) {
        let p = column_position(t, name);
        assert(p != i);
    }
}

proof fn lemma_columns_untouched(t: Seq<ColumnView>, kind: TransformKind, names: Seq<Seq<char>>, i: int)
    requires
        table_wf(t),
        0 <= i < t.len(),
        forall|j: int| 0 <= j < names.len() ==> #[trigger] names[j] != t[i].name,
    ensures
        apply_columns(t, kind, names) matches Ok(u) ==> u[i] == t[i],
    decreases names.len(),
{
    if names.len() > 0 {
        assert(names[0] != t[i].name);
        lemma_step_untouched(t, kind, names[0], i);
        lemma_step_shape(t, kind, names[0]);
        if let Ok(t1) = apply_step_checked(t, kind, names[0]) {
            assert forall|j: int| 0 <= j < names.drop_first().len() implies #[trigger] names.drop_first()[j]
                != t1[i].name by {
                assert(names.drop_first()[j] == names[j + 1]);
            }
            lemma_columns_untouched(t1, kind, names.drop_first(), i);
        }
    }
}

/// A column that the plan does not name comes out of a successful
/// application exactly as it went in.
pub proof fn lemma_untouched_columns(t: Seq<ColumnView>, plan: Seq<TransformationView>, i: int)
    requires
        table_wf(t),
        0 <= i < t.len(),
        !plan_names(plan, t[i].name),
    ensures
        apply_plan(t, plan) matches Ok(u) ==> u[i] == t[i],
    decreases plan.len(),
{
    if plan.len() > 0 {
        assert forall|j: int| 0 <= j < plan[0].columns.len() implies #[trigger] plan[0].columns[j]
            != t[i].name by {
            if plan[0].columns[j] == t[i].name {
                assert(plan_names(plan, t[i].name));
            }
        }
        lemma_columns_untouched(t, plan[0].kind, plan[0].columns, i);
        lemma_columns_shape(t, plan[0].kind, plan[0].columns);
        if let Ok(t1) = apply_columns(t, plan[0].kind, plan[0].columns) {
            let rest = plan.drop_first();
            if plan_names(rest, t1[i].name) {
                let (k, j) = choose|k: int, j: int|
                    0 <= k < rest.len() && 0 <= j < rest[k].columns.len() && #[trigger] rest[k].columns[j]
                        == t1[i].name;
                assert(plan[k + 1].columns[j] == t[i].name);
            }
            lemma_untouched_columns(t1, rest, i);
        }
    }
}

/// An empty plan leaves the table as it is.
pub proof fn lemma_empty_plan(t: Seq<ColumnView>)
    ensures
        apply_plan(t, Seq::<TransformationView>::empty()) == Ok::<Seq<ColumnView>, TransformErrorView>(t),
{
}

/// A transformation keeps the number of cells, and a cell is missing
/// afterwards exactly when it was missing before.
pub proof fn lemma_missing_cells_stay_missing(kind: TransformKind, cells: Seq<Option<Seq<char>>>)
    ensures
        transform_cells(kind, cells).len() == cells.len(),
        forall|i: int|
            0 <= i < cells.len() ==> (#[trigger] transform_cells(kind, cells)[i] is None) == (
            cells[i] is None),
{
}

spec fn step_cells(t: Seq<ColumnView>, kind: TransformKind, name: Seq<char>, p: int) -> bool {
    apply_step(t, kind, name) matches Ok(u) ==> u[p].cells == if t[p].name == name {
        transform_cells(kind, t[p].cells)
    } else {
        t[p].cells
    }
}

// ---------------------------------------------------------------------------
// What a plan does to each column.
// ---------------------------------------------------------------------------

/// How many times `name` occurs in `names`.
pub open spec fn count_name(names: Seq<Seq<char>>, name: Seq<char>) -> nat
    decreases names.len(),
{
    if names.len() == 0 {
        0
    } else {
        (if names[0] == name {
            1nat
        } else {
            0nat
        }) + count_name(names.drop_first(), name)
    }
}

/// The cells after `k` transformations of kind `kind`.
pub open spec fn repeat_transform(kind: TransformKind, cells: Seq<Option<Seq<char>>>, k: nat) -> Seq<
    Option<Seq<char>>,
>
    decreases k,
{
    if k == 0 {
        cells
    } else {
        repeat_transform(kind, transform_cells(kind, cells), (k - 1) as nat)
    }
}

/// The cells of the column `name` after a plan: each entry, in order,
/// transforms them once for every time it names the column.
pub open spec fn plan_effect(
    plan: Seq<TransformationView>,
    name: Seq<char>,
    cells: Seq<Option<Seq<char>>>,
) -> Seq<Option<Seq<char>>>
    decreases plan.len(),
{
    if plan.len() == 0 {
        cells
    } else {
        plan_effect(
            plan.drop_first(),
            name,
            repeat_transform(plan[0].kind, cells, count_name(plan[0].columns, name)),
        )
    }
}

/// One successful step transforms the cells of the named column, wherever
/// it stands in the table, and leaves every other column as it was; no
/// column changes its name or kind.
pub proof fn lemma_step_effect(t: Seq<ColumnView>, kind: TransformKind, name: Seq<char>, p: int)
    requires
        table_wf(t),
        0 <= p < t.len(),
    ensures
        apply_step(t, kind, name) matches Ok(u) ==> {
            &&& u[p].name == t[p].name
            &&& u[p].is_text == t[p].is_text
            &&& u[p].cells == if t[p].name == name {
                transform_cells(kind, t[p].cells)
            } else {
                t[p].cells
            }
        },
        apply_step_checked(t, kind, name) matches Ok(u) ==> {
            &&& u[p].name == t[p].name
            &&& u[p].is_text == t[p].is_text
            &&& u[p].cells == if t[p].name == name {
                transform_cells(kind, t[p].cells)
            } else {
                t[p].cells
            }
        },
{
    if has_column(t, name) {
        let q = column_position(t, name);
        if t[p].name == name {
            lemma_position_unique(t, name, p);
        } else {
            assert(q != p);
        }
    }
}

/// A successful application of one entry transforms each column once for
/// every time the entry names it, and leaves the other columns as they were.
pub proof fn lemma_columns_effect(t: Seq<ColumnView>, kind: TransformKind, names: Seq<Seq<char>>, p: int)
    requires
        table_wf(t),
        0 <= p < t.len(),
    ensures
        apply_columns(t, kind, names) matches Ok(u) ==> {
            &&& u[p].name == t[p].name
            &&& u[p].is_text == t[p].is_text
            &&& u[p].cells == repeat_transform(kind, t[p].cells, count_name(names, t[p].name))
        },
    decreases names.len(),
{
    if names.len() > 0 {
        lemma_step_effect(t, kind, names[0], p);
        lemma_step_shape(t, kind, names[0]);
        if let Ok(t1) = apply_step_checked(t, kind, names[0]) {
            lemma_columns_effect(t1, kind, names.drop_first(), p);
            let c = count_name(names.drop_first(), t[p].name);
            if names[0] == t[p].name {
                assert(count_name(names, t[p].name) == c + 1);
                assert(repeat_transform(kind, t[p].cells, c + 1) == repeat_transform(
                    kind,
                    transform_cells(kind, t[p].cells),
                    c,
                ));
            } else {
                assert(count_name(names, t[p].name) == c);
            }
        }
    }
}

/// A successful application of a plan leaves in every column the cells that
/// the plan's entries make of its old cells, in order, and keeps every
/// column's name and kind.
pub proof fn lemma_plan_effect(t: Seq<ColumnView>, plan: Seq<TransformationView>, p: int)
    requires
        table_wf(t),
        0 <= p < t.len(),
    ensures
        apply_plan(t, plan) matches Ok(u) ==> {
            &&& u[p].name == t[p].name
            &&& u[p].is_text == t[p].is_text
            &&& u[p].cells == plan_effect(plan, t[p].name, t[p].cells)
        },
    decreases plan.len(),
{
    if plan.len() > 0 {
        lemma_columns_effect(t, plan[0].kind, plan[0].columns, p);
        lemma_columns_shape(t, plan[0].kind, plan[0].columns);
        if let Ok(t1) = apply_columns(t, plan[0].kind, plan[0].columns) {
            lemma_plan_effect(t1, plan.drop_first(), p);
        }
    }
}

/// A name that occurs once in a list of distinct names is counted once.
proof fn lemma_count_distinct(names: Seq<Seq<char>>, j: int)
    requires
        0 <= j < names.len(),
        forall|a: int, b: int| 0 <= a < b < names.len() ==> #[trigger] names[a] != #[trigger] names[b],
    ensures
        count_name(names, names[j]) == 1,
    decreases names.len(),
{
    let rest = names.drop_first();
    assert forall|a: int, b: int| 0 <= a < b < rest.len() implies #[trigger] rest[a] != #[trigger] rest[b] by {
        assert(names[a + 1] != names[b + 1]);
    }
    if j == 0 {
        lemma_count_absent(rest, names[0]);
    } else {
        assert(names[0] != names[j]);
        assert(rest[j - 1] == names[j]);
        lemma_count_distinct(rest, j - 1);
    }
}

proof fn lemma_count_absent(names: Seq<Seq<char>>, name: Seq<char>)
    requires
        forall|a: int| 0 <= a < names.len() ==> #[trigger] names[a] != name,
    ensures
        count_name(names, name) == 0,
    decreases names.len(),
{
    if names.len() > 0 {
        assert(names[0] != name);
        let rest = names.drop_first();
        assert forall|a: int| 0 <= a < rest.len() implies #[trigger] rest[a] != name by {
            assert(rest[a] == names[a + 1]);
        }
        lemma_count_absent(rest, name);
    }
}

/// A plan of one entry that names distinct columns, once applied, leaves in
/// every one of those columns the transformation of its old cells, not only
/// in the first.
pub proof fn lemma_entry_transforms_every_named_column(
    t: Seq<ColumnView>,
    kind: TransformKind,
    names: Seq<Seq<char>>,
    j: int,
)
    requires
        table_wf(t),
        0 <= j < names.len(),
        forall|a: int, b: int| 0 <= a < b < names.len() ==> #[trigger] names[a] != #[trigger] names[b],
    ensures
        apply_plan(t, seq![TransformationView { kind, columns: names }]) matches Ok(u) ==> {
            &&& has_column(t, names[j])
            &&& u[column_position(t, names[j])].name == names[j]
            &&& u[column_position(t, names[j])].cells == transform_cells(
                kind,
                t[column_position(t, names[j])].cells,
            )
        },
{
    let plan = seq![TransformationView { kind, columns: names }];
    lemma_plan_shape(t, plan);
    if let Ok(u) = apply_plan(t, plan) {
        assert(plan[0].columns[j] == names[j]);
        assert(name_valid(t, names[j]));
        let p = column_position(t, names[j]);
        lemma_plan_effect(t, plan, p);
        lemma_count_distinct(names, j);
        assert(t[p].name == names[j]);
        assert(plan.drop_first() =~= Seq::<TransformationView>::empty());
        let once = repeat_transform(kind, t[p].cells, count_name(names, t[p].name));
        assert(plan_effect(plan, t[p].name, t[p].cells) == plan_effect(
            plan.drop_first(),
            t[p].name,
            once,
        ));
        assert(plan_effect(plan.drop_first(), t[p].name, once) == once);
        assert(repeat_transform(kind, t[p].cells, 1) == repeat_transform(
            kind,
            transform_cells(kind, t[p].cells),
            0,
        ));
    }
}

/// The height of a well-formed table is the number of cells of each of its
/// columns.
pub proof fn lemma_height_is_rows(t: Seq<ColumnView>)
    requires
        table_wf(t),
    ensures
        forall|i: int| 0 <= i < t.len() ==> table_height(t) == #[trigger] t[i].cells.len(),
        t.len() == 0 ==> table_height(t) == 0,
{
}

/// Finds the position of the column named `name`, if any.
fn find_position(columns: &Vec<Column>, name: &String) -> (r: Option<usize>)
    requires
        names_distinct(columns_view(columns@)),
    ensures
        match r {
            Some(i) => i < columns@.len() && has_column(columns_view(columns@), name@)
                && column_position(columns_view(columns@), name@) == i,
            None => !has_column(columns_view(columns@), name@),
        },
{
    let ghost t = columns_view(columns@);
    let mut i: usize = 0;
    while i < columns.len()
        invariant
            i <= columns.len(),
            t == columns_view(columns@),
            names_distinct(t),
            forall|j: int| 0 <= j < i ==> #[trigger] t[j].name != name@,
        decreases columns.len() - i,
    {
        if columns[i].name == *name {
            proof {
                lemma_position_unique(t, name@, i as int);
            }
            return Some(i);
        }
        assert(t[i as int].name == columns@[i as int].name@);
        i = i + 1;
    }
    assert(!has_column(t, name@)) by {
        if has_column(t, name@) {
            let j = choose|j: int| 0 <= j < t.len() && #[trigger] t[j].name == name@;
            assert(t[j].name != name@);
        }
    }
    None
}

/// Applies one transformation kind to one named column, refusing a column
/// that exceeds the size limits of the case mappings.
fn apply_one(columns: &mut Vec<Column>, kind: TransformKind, name: &String) -> (r: Result<
    (),
    TransformError,
>)
    requires
        table_wf(columns_view(old(columns)@)),
    ensures
        r is Ok <==> apply_step_checked(columns_view(old(columns)@), kind, name@) is Ok,
        r is Ok ==> apply_step_checked(columns_view(old(columns)@), kind, name@) == Ok::<
            Seq<ColumnView>,
            TransformErrorView,
        >(columns_view(final(columns)@)),
        r matches Err(err) ==> apply_step_checked(columns_view(old(columns)@), kind, name@) == Err::<
            Seq<ColumnView>,
            TransformErrorView,
        >(err@),
{
    let ghost t = columns_view(columns@);
    match find_position(columns, name) {
        None => Err(TransformError::ColumnNotFound(name.clone())),
        Some(i) => {
            if !columns[i].is_text {
                return Err(TransformError::NotText(name.clone()));
            }
            assert(t[i as int].cells == columns@[i as int].cells.deep_view());
            let checked = match kind {
                TransformKind::ToUppercase | TransformKind::ToLowercase => true,
                _ => false,
            };
            if checked && !column_fits(&columns[i].cells) {
                return Err(TransformError::TooLarge(name.clone()));
            }
            let cells = transform_column(kind, &columns[i].cells);
            let column = Column { name: columns[i].name.clone(), is_text: true, cells };
            columns.set(i, column);
            assert(columns_view(columns@) =~= t.update(
                i as int,
                ColumnView {
                    name: t[i as int].name,
                    is_text: t[i as int].is_text,
                    cells: transform_cells(kind, t[i as int].cells),
                },
            ));
            Ok(())
        },
    }
}

/// Applies one plan entry: its kind to each of its columns, left to right.
fn apply_entry(columns: &mut Vec<Column>, entry: &Transformation) -> (r: Result<(), TransformError>)
    requires
        table_wf(columns_view(old(columns)@)),
    ensures
        r is Ok <==> apply_columns(columns_view(old(columns)@), entry@.kind, entry@.columns) is Ok,
        r is Ok ==> apply_columns(columns_view(old(columns)@), entry@.kind, entry@.columns)
            == Ok::<Seq<ColumnView>, TransformErrorView>(columns_view(final(columns)@)),
        r matches Err(err) ==> apply_columns(
            columns_view(old(columns)@),
            entry@.kind,
            entry@.columns,
        ) == Err::<Seq<ColumnView>, TransformErrorView>(err@),
{
    let ghost t0 = columns_view(columns@);
    let ghost names = entry@.columns;
    let mut j: usize = 0;
    assert(names.skip(0) =~= names);
    while j < entry.columns.len()
        invariant
            j <= entry.columns.len(),
            names == entry.columns.deep_view(),
            t0 == columns_view(old(columns)@),
            table_wf(columns_view(columns@)),
            apply_columns(t0, entry.kind, names) == apply_columns(
                columns_view(columns@),
                entry.kind,
                names.skip(j as int),
            ),
        decreases entry.columns.len() - j,
    {
        let ghost cur = columns_view(columns@);
        assert(names.skip(j as int)[0] == names[j as int]);
        assert(names.skip(j as int).drop_first() =~= names.skip(j + 1));
        proof {
            lemma_step_shape(cur, entry.kind, names[j as int]);
        }
        let step = apply_one(columns, entry.kind, &entry.columns[j]);
        match step {
            Ok(()) => {},
            Err(e) => {
                assert(apply_columns(cur, entry.kind, names.skip(j as int)) == Err::<
                    Seq<ColumnView>,
                    TransformErrorView,
                >(e@));
                return Err(e);
            },
        }
        j = j + 1;
    }
    assert(names.skip(j as int) =~= Seq::<Seq<char>>::empty());
    Ok(())
}

/// Applies a whole plan, entry by entry.
fn apply_all(columns: &mut Vec<Column>, plan: &Vec<Transformation>) -> (r: Result<(), TransformError>)
    requires
        table_wf(columns_view(old(columns)@)),
    ensures
        r is Ok <==> apply_plan(columns_view(old(columns)@), plan_view(plan@)) is Ok,
        r is Ok ==> apply_plan(columns_view(old(columns)@), plan_view(plan@)) == Ok::<
            Seq<ColumnView>,
            TransformErrorView,
        >(columns_view(final(columns)@)),
        r matches Err(err) ==> apply_plan(columns_view(old(columns)@), plan_view(plan@)) == Err::<
            Seq<ColumnView>,
            TransformErrorView,
        >(err@),
{
    let ghost t0 = columns_view(columns@);
    let ghost pv = plan_view(plan@);
    let mut k: usize = 0;
    assert(pv.skip(0) =~= pv);
    while k < plan.len()
        invariant
            k <= plan.len(),
            pv == plan_view(plan@),
            t0 == columns_view(old(columns)@),
            table_wf(columns_view(columns@)),
            apply_plan(t0, pv) == apply_plan(columns_view(columns@), pv.skip(k as int)),
        decreases plan.len() - k,
    {
        let ghost cur = columns_view(columns@);
        assert(pv.skip(k as int)[0] == plan@[k as int]@);
        assert(pv.skip(k as int).drop_first() =~= pv.skip(k + 1));
        proof {
            lemma_columns_shape(cur, plan@[k as int]@.kind, plan@[k as int]@.columns);
        }
        let step = apply_entry(columns, &plan[k]);
        match step {
            Ok(()) => {},
            Err(e) => {
                assert(apply_plan(cur, pv.skip(k as int)) == Err::<
                    Seq<ColumnView>,
                    TransformErrorView,
                >(e@));
                return Err(e);
            },
        }
        k = k + 1;
    }
    assert(pv.skip(k as int) =~= Seq::<TransformationView>::empty());
    Ok(())
}

impl Table {
    /// Builds a table from columns. Fails when two columns share a name
    /// (checked first) or when the columns differ in height.
    pub fn new(columns: Vec<Column>) -> (r: Result<Table, TableError>)
        ensures
            match r {
                Ok(t) => table_wf(columns_view(columns@)) && t@ == columns_view(columns@),
                Err(TableError::DuplicateColumn(n)) => !names_distinct(columns_view(columns@))
                    && exists|i: int, j: int|
                    0 <= i < j < columns@.len() && #[trigger] columns@[i].name@ == n@
                        && #[trigger] columns@[j].name@ == n@,
                Err(TableError::RaggedColumns) => names_distinct(columns_view(columns@))
                    && !same_height(columns_view(columns@)),
            },
    {
        let ghost t = columns_view(columns@);
        let mut i: usize = 0;
        while i < columns.len()
            invariant
                i <= columns.len(),
                t == columns_view(columns@),
                forall|a: int, b: int| 0 <= a < b < t.len() && a < i ==> #[trigger] t[a].name
                    != #[trigger] t[b].name,
            decreases columns.len() - i,
        {
            let mut j: usize = i + 1;
            while j < columns.len()
                invariant
                    i < columns.len(),
                    i + 1 <= j <= columns.len(),
                    t == columns_view(columns@),
                    forall|a: int, b: int| 0 <= a < b < t.len() && a < i ==> #[trigger] t[a].name
                        != #[trigger] t[b].name,
                    forall|b: int| i < b < j ==> t[i as int].name != #[trigger] t[b].name,
                decreases columns.len() - j,
            {
                if columns[i].name == columns[j].name {
                    let n = columns[i].name.clone();
                    assert(t[i as int].name == t[j as int].name);
                    return Err(TableError::DuplicateColumn(n));
                }
                j = j + 1;
            }
            assert forall|a: int, b: int| 0 <= a < b < t.len() && a < i + 1 implies #[trigger] t[a].name
                != #[trigger] t[b].name by {
                if a == i {
                    assert(t[i as int].name != t[b].name);
                }
            }
            i = i + 1;
        }
        assert(names_distinct(t));
        if columns.len() > 0 {
            let h = columns[0].cells.len();
            assert(t[0].cells.len() == columns@[0].cells@.len());
            let mut k: usize = 1;
            while k < columns.len()
                invariant
                    1 <= k <= columns.len(),
                    t == columns_view(columns@),
                    h == t[0].cells.len(),
                    names_distinct(t),
                    forall|a: int| 0 <= a < k ==> #[trigger] t[a].cells.len() == h,
                decreases columns.len() - k,
            {
                assert(t[k as int].cells.len() == columns@[k as int].cells@.len());
                if columns[k].cells.len() != h {
                    assert(t[k as int].cells.len() != t[0].cells.len());
                    return Err(TableError::RaggedColumns);
                }
                k = k + 1;
            }
        }
        Ok(Table { columns })
    }

    /// The columns of the table.
    pub fn columns(&self) -> (r: &Vec<Column>)
        ensures
            columns_view(r@) == self@,
            table_wf(self@),
    {
        proof {
            use_type_invariant(self);
        }
        &self.columns
    }

    /// Takes the table apart into its columns.
    pub fn into_columns(self) -> (r: Vec<Column>)
        ensures
            columns_view(r@) == self@,
            table_wf(self@),
    {
        proof {
            use_type_invariant(&self);
        }
        self.columns
    }

    /// The number of rows.
    pub fn height(&self) -> (r: usize)
        ensures
            r == table_height(self@),
            forall|i: int| 0 <= i < self@.len() ==> r == #[trigger] self@[i].cells.len(),
    {
        proof {
            use_type_invariant(self);
            lemma_height_is_rows(self@);
        }
        if self.columns.len() == 0 {
            0
        } else {
            self.columns[0].cells.len()
        }
    }

    /// Applies one transformation to the column named `name`. Fails when the
    /// table has no such column or when it does not hold text. An upper- or
    /// lower-casing must stay within the size limits of the case mappings.
    pub fn apply_step(self, kind: TransformKind, name: &String) -> (r: Result<Table, TransformError>)
        requires
            step_fits(self@, kind, name@),
        ensures
            match apply_step(self@, kind, name@) {
                Ok(u) => r matches Ok(t) && t@ == u,
                Err(e) => r matches Err(err) && err@ == e,
            },
            r is Ok <==> name_valid(self@, name@),
            r matches Ok(t) ==> same_shape(self@, t@) && table_wf(t@),
            r matches Ok(t) ==> forall|p: int|
                0 <= p < self@.len() ==> (#[trigger] t@[p]).cells == if self@[p].name == name@ {
                    transform_cells(kind, self@[p].cells)
                } else {
                    self@[p].cells
                },
    {
        proof {
            use_type_invariant(&self);
            lemma_step_shape(self@, kind, name@);
            assert forall|p: int| 0 <= p < self@.len() implies #[trigger] step_cells(
                self@,
                kind,
                name@,
                p,
            ) by {
                lemma_step_effect(self@, kind, name@, p);
            }
        }
        let mut columns = self.columns;
        match apply_one(&mut columns, kind, name) {
            Ok(()) => Ok(Table { columns }),
            Err(e) => Err(e),
        }
    }

    /// Applies a plan of transformations: each entry in order, each of its
    /// columns in order. Stops at the first named column that is missing,
    /// does not hold text, or is too large for an upper- or lower-casing at
    /// that point of the plan (`TooLarge`); otherwise every named column is
    /// transformed and the table keeps its columns, names and height.
    pub fn apply_transformations(self, plan: &Vec<Transformation>) -> (r: Result<
        Table,
        TransformError,
    >)
        ensures
            match apply_plan(self@, plan_view(plan@)) {
                Ok(u) => r matches Ok(t) && t@ == u,
                Err(e) => r matches Err(err) && err@ == e,
            },
            r is Ok ==> plan_targets_valid(self@, plan_view(plan@)),
            r matches Err(e) && !(e is TooLarge) ==> !plan_targets_valid(self@, plan_view(plan@)),
            r matches Ok(t) ==> same_shape(self@, t@) && table_wf(t@),
            r matches Ok(t) ==> forall|p: int|
                0 <= p < self@.len() ==> (#[trigger] t@[p]).cells == plan_effect(
                    plan_view(plan@),
                    self@[p].name,
                    self@[p].cells,
                ),
    {
        proof {
            use_type_invariant(&self);
            lemma_plan_shape(self@, plan_view(plan@));
        }
        let ghost before = self@;
        let mut columns = self.columns;
        let r = match apply_all(&mut columns, plan) {
            Ok(()) => Ok(Table { columns }),
            Err(e) => Err(e),
        };
        proof {
            if let Ok(t) = &r {
                assert forall|p: int| 0 <= p < before.len() implies (#[trigger] t@[p]).cells
                    == plan_effect(plan_view(plan@), before[p].name, before[p].cells) by {
                    lemma_plan_effect(before, plan_view(plan@), p);
                }
            }
        }
        r
    }
}

} // verus!
