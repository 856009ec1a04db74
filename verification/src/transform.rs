//! Field transformations: what each transformation does to a single text
//! value and to a whole column of (possibly missing) values, and the plan of
//! transformations that a command line asks for.

use deunicode::deunicode;
use inflector::cases::titlecase::to_title_case;
use polars::prelude::{NewChunkedArray, PlSmallStr, StringChunked, StringNameSpaceImpl};
use vstd::prelude::*;

verus! {

/// The kinds of transformation that the tool can apply to a column.
#[derive(Clone, Copy, Debug, PartialEq, Eq, Structural)]
pub enum TransformKind {
    /// Turn every value into UPPERCASE.
    ToUppercase,
    /// Turn every value into lowercase.
    ToLowercase,
    /// Replace every value by its ASCII transliteration (accents removed).
    ToNormalized,
    /// Turn every value into Title Case.
    ToTitlecase,
}

/// One entry of a transformation plan: a kind and the columns it targets.
#[derive(Debug)]
pub struct Transformation {
    pub kind: TransformKind,
    pub columns: Vec<String>,
}

/// The abstract value of a plan entry.
pub struct TransformationView {
    pub kind: TransformKind,
    pub columns: Seq<Seq<char>>,
}

impl View for Transformation {
    type V = TransformationView;

    open spec fn view(&self) -> TransformationView {
        TransformationView { kind: self.kind, columns: self.columns.deep_view() }
    }
}

/// The abstract value of a whole plan.
pub open spec fn plan_view(plan: Seq<Transformation>) -> Seq<TransformationView> {
    plan.map_values(|t: Transformation| t@)
}

// ---------------------------------------------------------------------------
// Names for what the outside string functions return.
// ---------------------------------------------------------------------------

/// What polars' string `to_uppercase` makes of one value.
pub uninterp spec fn uppercase_text(s: Seq<char>) -> Seq<char>;

/// What polars' string `to_lowercase` makes of one value.
pub uninterp spec fn lowercase_text(s: Seq<char>) -> Seq<char>;

/// What `deunicode::deunicode` returns for a text.
pub uninterp spec fn deunicode_text(s: Seq<char>) -> Seq<char>;

/// What `inflector`'s `to_title_case` returns for a text.
pub uninterp spec fn title_case_text(s: Seq<char>) -> Seq<char>;

// ---------------------------------------------------------------------------
// ASCII helpers used to state the documented ASCII behaviour.
// ---------------------------------------------------------------------------

/// Every character of `s` is ASCII (code point below 128).
pub open spec fn is_ascii_text(s: Seq<char>) -> bool {
    forall|i: int| 0 <= i < s.len() ==> (#[trigger] s[i] as u32) < 128
}

/// Every character of `s` is below the ASCII delete character (0x7F).
pub open spec fn below_del(s: Seq<char>) -> bool {
    forall|i: int| 0 <= i < s.len() ==> (#[trigger] s[i] as u32) < 127
}

/// ASCII upper-casing of one character; other characters are kept.
pub open spec fn ascii_upper_char(c: char) -> char {
    if 97 <= (c as u32) && (c as u32) <= 122 {
        ((c as u32) - 32) as char
    } else {
        c
    }
}

/// ASCII lower-casing of one character; other characters are kept.
pub open spec fn ascii_lower_char(c: char) -> char {
    if 65 <= (c as u32) && (c as u32) <= 90 {
        ((c as u32) + 32) as char
    } else {
        c
    }
}

pub open spec fn ascii_upper(s: Seq<char>) -> Seq<char> {
    s.map_values(|c: char| ascii_upper_char(c))
}

pub open spec fn ascii_lower(s: Seq<char>) -> Seq<char> {
    s.map_values(|c: char| ascii_lower_char(c))
}

// ---------------------------------------------------------------------------
// Specification of the transformations.
// ---------------------------------------------------------------------------

/// What a transformation of kind `kind` makes of one text value.
pub open spec fn transform_text(kind: TransformKind, s: Seq<char>) -> Seq<char> {
    match kind {
        TransformKind::ToUppercase => uppercase_text(s),
        TransformKind::ToLowercase => lowercase_text(s),
        TransformKind::ToNormalized => deunicode_text(s),
        TransformKind::ToTitlecase => title_case_text(s),
    }
}

/// What a transformation makes of one cell: a missing value stays missing.
pub open spec fn transform_cell(kind: TransformKind, cell: Option<Seq<char>>) -> Option<Seq<char>> {
    match cell {
        Some(s) => Some(transform_text(kind, s)),
        None => None,
    }
}

/// Every present cell of the column is ASCII text.
pub open spec fn cells_ascii(cells: Seq<Option<Seq<char>>>) -> bool {
    forall|i: int| 0 <= i < cells.len() && (#[trigger] cells[i]) is Some ==> is_ascii_text(cells[i]->0)
}

/// Every present cell of the column is below the delete character.
pub open spec fn cells_below_del(cells: Seq<Option<Seq<char>>>) -> bool {
    forall|i: int| 0 <= i < cells.len() && (#[trigger] cells[i]) is Some ==> below_del(cells[i]->0)
}

/// The largest number of characters of a value that the case mappings are
/// sure to take: a character is at most 4 bytes and maps to at most 3
/// characters, and polars holds at most `u32::MAX` bytes in a value, before
/// and after the mapping. Polars' own limit is on the bytes of the mapped
/// value, which only the mapping itself reveals; this bound is the largest
/// that can be checked before it, so a longer value is refused even where
/// its mapping would have fitted.
pub const MAX_CASE_MAPPED_CHARS: usize = 357913941;

/// A column that polars' case mappings can take: fewer than `u32::MAX`
/// cells, and no value longer than `MAX_CASE_MAPPED_CHARS` characters.
pub open spec fn cells_fit(cells: Seq<Option<Seq<char>>>) -> bool {
    &&& cells.len() < u32::MAX
    &&& forall|i: int|
        0 <= i < cells.len() && (#[trigger] cells[i]) is Some ==> cells[i]->0.len()
            <= MAX_CASE_MAPPED_CHARS
}

/// The kinds that go through polars' case mappings, which have size limits.
pub open spec fn needs_fit(kind: TransformKind) -> bool {
    kind == TransformKind::ToUppercase || kind == TransformKind::ToLowercase
}

/// ASCII case mapping of every present cell.
pub open spec fn cells_ascii_upper(cells: Seq<Option<Seq<char>>>) -> Seq<Option<Seq<char>>> {
    cells.map_values(
        |c: Option<Seq<char>>|
            match c {
                Some(s) => Some(ascii_upper(s)),
                None => None,
            },
    )
}

pub open spec fn cells_ascii_lower(cells: Seq<Option<Seq<char>>>) -> Seq<Option<Seq<char>>> {
    cells.map_values(
        |c: Option<Seq<char>>|
            match c {
                Some(s) => Some(ascii_lower(s)),
                None => None,
            },
    )
}

/// What a transformation makes of a column of cells: each cell on its own.
pub open spec fn transform_cells(kind: TransformKind, cells: Seq<Option<Seq<char>>>) -> Seq<
    Option<Seq<char>>,
> {
    cells.map_values(|c: Option<Seq<char>>| transform_cell(kind, c))
}

// ---------------------------------------------------------------------------
// Trusted calls into the outside crates.
// ---------------------------------------------------------------------------

/// Calls polars' `StringNameSpaceImpl::to_uppercase` on a string column built
/// from `values`. Trusted: the result has one cell per input cell, a missing
/// value stays missing, a present value `s` becomes `uppercase_text(s)`, and an
/// all-ASCII value is upper-cased letter by letter (the ASCII fast path of the
/// source; other characters go through `char::to_uppercase`).
#[verifier::external_body]
fn polars_uppercase(values: &Vec<Option<String>>) -> (r: Vec<Option<String>>)
    requires
        cells_fit(values.deep_view()),
    ensures
        r.deep_view().len() == values.deep_view().len(),
        forall|i: int|
            0 <= i < values.deep_view().len() ==> #[trigger] r.deep_view()[i] == match values.deep_view()[i] {
                Some(s) => Some(uppercase_text(s)),
                None => None,
            },
        forall|i: int|
            0 <= i < values.deep_view().len() && (#[trigger] values.deep_view()[i]) is Some
                && is_ascii_text(values.deep_view()[i]->0) ==> r.deep_view()[i] == Some(ascii_upper(values.deep_view()[i]->0)),
{
    let column = StringChunked::from_slice_options(PlSmallStr::EMPTY, values.as_slice());
    let upper = column.to_uppercase();
    upper.iter().map(|cell| cell.map(String::from)).collect()
}

/// Calls polars' `StringNameSpaceImpl::to_lowercase` on a string column built
/// from `values`. Trusted: one cell per input cell, a missing value stays
/// missing, a present value `s` becomes `lowercase_text(s)`, and an all-ASCII
/// value is lower-cased letter by letter (the special case of the source is the
/// non-ASCII capital sigma). The size limits are those of `polars_uppercase`.
#[verifier::external_body]
fn polars_lowercase(values: &Vec<Option<String>>) -> (r: Vec<Option<String>>)
    requires
        cells_fit(values.deep_view()),
    ensures
        r.deep_view().len() == values.deep_view().len(),
        forall|i: int|
            0 <= i < values.deep_view().len() ==> #[trigger] r.deep_view()[i] == match values.deep_view()[i] {
                Some(s) => Some(lowercase_text(s)),
                None => None,
            },
        forall|i: int|
            0 <= i < values.deep_view().len() && (#[trigger] values.deep_view()[i]) is Some
                && is_ascii_text(values.deep_view()[i]->0) ==> r.deep_view()[i] == Some(ascii_lower(values.deep_view()[i]->0)),
{
    let column = StringChunked::from_slice_options(PlSmallStr::EMPTY, values.as_slice());
    let lower = column.to_lowercase();
    lower.iter().map(|cell| cell.map(String::from)).collect()
}

/// Calls `deunicode::deunicode`. Trusted, as its source shows: the result is
/// `deunicode_text(s)`; a text whose characters are all below 0x7F is
/// returned as it is (the fast path); otherwise the leading run of such
/// characters is kept and every other character is replaced by its entry in
/// the crate's table, whose characters are all below 0x7F (control
/// characters and DEL map to nothing there), or by "[?]". So every character
/// of the result is below 0x7F. Which entry a character has is not stated.
#[verifier::external_body]
fn deunicode_value(s: &str) -> (r: String)
    ensures
        r@ == deunicode_text(s@),
        below_del(r@),
        below_del(s@) ==> r@ == s@,
{
    deunicode(s)
}

/// Calls `inflector::cases::titlecase::to_title_case`. Trusted: the result is
/// `title_case_text(s)`; nothing more is stated of it.
#[verifier::external_body]
fn title_case_value(s: &str) -> (r: String)
    ensures
        r@ == title_case_text(s@),
{
    to_title_case(s)
}

// ---------------------------------------------------------------------------
// Verified transformations.
// ---------------------------------------------------------------------------

/// Whether polars' case mappings can take the column.
pub fn column_fits(values: &Vec<Option<String>>) -> (r: bool)
    ensures
        r == cells_fit(values.deep_view()),
{
    if values.len() >= 4294967295usize {
        return false;
    }
    let mut i: usize = 0;
    while i < values.len()
        invariant
            i <= values.len(),
            forall|j: int|
                0 <= j < i && (#[trigger] values.deep_view()[j]) is Some ==> values.deep_view()[j]->0.len()
                    <= MAX_CASE_MAPPED_CHARS,
        decreases values.len() - i,
    {
        match &values[i] {
            Some(s) => {
                if s.as_str().unicode_len() > MAX_CASE_MAPPED_CHARS {
                    assert(values.deep_view()[i as int] == Some(s@));
                    return false;
                }
                assert(values.deep_view()[i as int] == Some(s@));
            },
            None => {
                assert(values.deep_view()[i as int] is None);
            },
        }
        i = i + 1;
    }
    true
}

/// Applies one transformation to every cell of a column; missing values stay
/// missing. Each present value becomes what the outside function of its
/// kind returns for that very value: polars' upper- or lower-casing,
/// deunicode's transliteration, or inflector's title case.
pub fn transform_column(kind: TransformKind, values: &Vec<Option<String>>) -> (r: Vec<Option<String>>)
    requires
        needs_fit(kind) ==> cells_fit(values.deep_view()),
    ensures
        r.deep_view() == transform_cells(kind, values.deep_view()),
        r.deep_view().len() == values.deep_view().len(),
        forall|i: int|
            0 <= i < values.deep_view().len() ==> match (#[trigger] values.deep_view()[i]) {
                None => r.deep_view()[i] is None,
                Some(s) => r.deep_view()[i] == Some(
                    match kind {
                        TransformKind::ToUppercase => uppercase_text(s),
                        TransformKind::ToLowercase => lowercase_text(s),
                        TransformKind::ToNormalized => deunicode_text(s),
                        TransformKind::ToTitlecase => title_case_text(s),
                    },
                ),
            },
        kind == TransformKind::ToUppercase && cells_ascii(values.deep_view()) ==> r.deep_view()
            == cells_ascii_upper(values.deep_view()),
        kind == TransformKind::ToLowercase && cells_ascii(values.deep_view()) ==> r.deep_view()
            == cells_ascii_lower(values.deep_view()),
        kind == TransformKind::ToNormalized ==> cells_below_del(r.deep_view()),
        kind == TransformKind::ToNormalized && cells_below_del(values.deep_view()) ==> r.deep_view()
            == values.deep_view(),
{
    let r = transform_cells_of(kind, values);
    proof {
        assert forall|i: int| 0 <= i < values.deep_view().len() implies match (
        #[trigger] values.deep_view()[i]) {
            None => r.deep_view()[i] is None,
            Some(s) => r.deep_view()[i] == Some(
                match kind {
                    TransformKind::ToUppercase => uppercase_text(s),
                    TransformKind::ToLowercase => lowercase_text(s),
                    TransformKind::ToNormalized => deunicode_text(s),
                    TransformKind::ToTitlecase => title_case_text(s),
                },
            ),
        } by {
            lemma_transform_meaning(kind, values.deep_view()[i]);
        }
    }
    r
}

/// Each kind of transformation makes of a present value exactly what the
/// outside function of that kind returns for it, and keeps a missing value
/// missing: upper- and lower-casing are polars', normalizing is deunicode's
/// and title-casing is inflector's, each applied to the value itself.
pub proof fn lemma_transform_meaning(kind: TransformKind, cell: Option<Seq<char>>)
    ensures
        cell is None ==> transform_cell(kind, cell) is None,
        cell matches Some(s) ==> transform_cell(kind, cell) == Some(
            match kind {
                TransformKind::ToUppercase => uppercase_text(s),
                TransformKind::ToLowercase => lowercase_text(s),
                TransformKind::ToNormalized => deunicode_text(s),
                TransformKind::ToTitlecase => title_case_text(s),
            },
        ),
{
}

fn transform_cells_of(kind: TransformKind, values: &Vec<Option<String>>) -> (r: Vec<Option<String>>)
    requires
        needs_fit(kind) ==> cells_fit(values.deep_view()),
    ensures
        r.deep_view() == transform_cells(kind, values.deep_view()),
        kind == TransformKind::ToUppercase && cells_ascii(values.deep_view()) ==> r.deep_view()
            == cells_ascii_upper(values.deep_view()),
        kind == TransformKind::ToLowercase && cells_ascii(values.deep_view()) ==> r.deep_view()
            == cells_ascii_lower(values.deep_view()),
        kind == TransformKind::ToNormalized ==> cells_below_del(r.deep_view()),
        kind == TransformKind::ToNormalized && cells_below_del(values.deep_view()) ==> r.deep_view()
            == values.deep_view(),
{
    match kind {
        TransformKind::ToUppercase => {
            let r = polars_uppercase(values);
            assert(r.deep_view() =~= transform_cells(kind, values.deep_view()));
            proof {
                if cells_ascii(values.deep_view()) {
                    assert(r.deep_view() =~= cells_ascii_upper(values.deep_view()));
                }
            }
            r
        },
        TransformKind::ToLowercase => {
            let r = polars_lowercase(values);
            assert(r.deep_view() =~= transform_cells(kind, values.deep_view()));
            proof {
                if cells_ascii(values.deep_view()) {
                    assert(r.deep_view() =~= cells_ascii_lower(values.deep_view()));
                }
            }
            r
        },
        _ => {
            let mut r: Vec<Option<String>> = Vec::new();
            let mut i: usize = 0;
            while i < values.len()
                invariant
                    i <= values.len(),
                    kind == TransformKind::ToNormalized || kind == TransformKind::ToTitlecase,
                    r.deep_view() =~= transform_cells(kind, values.deep_view().take(i as int)),
                    kind == TransformKind::ToNormalized ==> cells_below_del(r.deep_view()),
                    kind == TransformKind::ToNormalized && cells_below_del(values.deep_view())
                        ==> r.deep_view() =~= values.deep_view().take(i as int),
                decreases values.len() - i,
            {
                let cell: Option<String> = match &values[i] {
                    Some(s) => {
                        let t = if kind == TransformKind::ToNormalized {
                            deunicode_value(s.as_str())
                        } else {
                            title_case_value(s.as_str())
                        };
                        Some(t)
                    },
                    None => None,
                };
                assert(cell.deep_view() == transform_cell(kind, values.deep_view()[i as int]));
                assert(kind == TransformKind::ToNormalized ==> cells_below_del(seq![cell.deep_view()]));
                assert(kind == TransformKind::ToNormalized && cells_below_del(values.deep_view())
                    ==> cell.deep_view() == values.deep_view()[i as int]);
                let ghost before = r.deep_view();
                r.push(cell);
                assert(r.deep_view() =~= before.push(transform_cell(kind, values.deep_view()[i as int])));
                assert(values.deep_view().take(i + 1) =~= values.deep_view().take(i as int).push(
                    values.deep_view()[i as int],
                ));
                assert(transform_cells(kind, values.deep_view().take(i + 1)) =~= transform_cells(
                    kind,
                    values.deep_view().take(i as int),
                ).push(transform_cell(kind, values.deep_view()[i as int])));
                i = i + 1;
            }
            assert(values.deep_view().take(i as int) =~= values.deep_view());
            r
        },
    }
}

// ---------------------------------------------------------------------------
// The plan of transformations.
// ---------------------------------------------------------------------------

/// The plan entry for one kind: present exactly when columns were given.
pub open spec fn plan_entry(kind: TransformKind, columns: Option<Seq<Seq<char>>>) -> Seq<
    TransformationView,
> {
    match columns {
        Some(c) => seq![TransformationView { kind, columns: c }],
        None => seq![],
    }
}

/// The plan that the four column options ask for: one entry per option that
/// was given, in the order upper-case, lower-case, normalize, title-case.
pub open spec fn plan_spec(
    to_uppercase: Option<Seq<Seq<char>>>,
    to_lowercase: Option<Seq<Seq<char>>>,
    to_normalized: Option<Seq<Seq<char>>>,
    to_titlecase: Option<Seq<Seq<char>>>,
) -> Seq<TransformationView> {
    plan_entry(TransformKind::ToUppercase, to_uppercase) + plan_entry(
        TransformKind::ToLowercase,
        to_lowercase,
    ) + plan_entry(TransformKind::ToNormalized, to_normalized) + plan_entry(
        TransformKind::ToTitlecase,
        to_titlecase,
    )
}

/// Copies a list of column names.
pub fn clone_names(names: &Vec<String>) -> (r: Vec<String>)
    ensures
        r.deep_view() == names.deep_view(),
{
    let mut r: Vec<String> = Vec::new();
    let mut i: usize = 0;
    while i < names.len()
        invariant
            i <= names.len(),
            r.deep_view() =~= names.deep_view().take(i as int),
        decreases names.len() - i,
    {
        let ghost before = r.deep_view();
        r.push(names[i].clone());
        assert(r.deep_view() =~= before.push(names.deep_view()[i as int]));
        assert(names.deep_view().take(i + 1) =~= names.deep_view().take(i as int).push(
            names.deep_view()[i as int],
        ));
        i = i + 1;
    }
    assert(names.deep_view().take(i as int) =~= names.deep_view());
    r
}

fn push_entry(plan: &mut Vec<Transformation>, kind: TransformKind, columns: &Option<Vec<String>>)
    ensures
        plan_view(final(plan)@) == plan_view(old(plan)@) + plan_entry(kind, columns.deep_view()),
{
    match columns {
        Some(c) => {
            let entry = Transformation { kind, columns: clone_names(c) };
            plan.push(entry);
            assert(plan_view(plan@) =~= plan_view(old(plan)@) + plan_entry(
                kind,
                columns.deep_view(),
            ));
        },
        None => {
            assert(plan_view(plan@) =~= plan_view(old(plan)@) + plan_entry(
                kind,
                columns.deep_view(),
            ));
        },
    }
}

/// Builds the plan of transformations from the four column options: one
/// entry per option that was given, each kind at most once.
pub fn transformation_plan(
    to_uppercase: &Option<Vec<String>>,
    to_lowercase: &Option<Vec<String>>,
    to_normalized: &Option<Vec<String>>,
    to_titlecase: &Option<Vec<String>>,
) -> (plan: Vec<Transformation>)
    ensures
        plan_view(plan@) == plan_spec(
            to_uppercase.deep_view(),
            to_lowercase.deep_view(),
            to_normalized.deep_view(),
            to_titlecase.deep_view(),
        ),
{
    let mut plan: Vec<Transformation> = Vec::new();
    assert(plan_view(plan@) =~= Seq::<TransformationView>::empty());
    push_entry(&mut plan, TransformKind::ToUppercase, to_uppercase);
    push_entry(&mut plan, TransformKind::ToLowercase, to_lowercase);
    push_entry(&mut plan, TransformKind::ToNormalized, to_normalized);
    push_entry(&mut plan, TransformKind::ToTitlecase, to_titlecase);
    assert(plan_view(plan@) =~= plan_spec(
        to_uppercase.deep_view(),
        to_lowercase.deep_view(),
        to_normalized.deep_view(),
        to_titlecase.deep_view(),
    ));
    plan
}

/// The column option that belongs to a kind.
pub open spec fn option_for(
    kind: TransformKind,
    to_uppercase: Option<Seq<Seq<char>>>,
    to_lowercase: Option<Seq<Seq<char>>>,
    to_normalized: Option<Seq<Seq<char>>>,
    to_titlecase: Option<Seq<Seq<char>>>,
) -> Option<Seq<Seq<char>>> {
    match kind {
        TransformKind::ToUppercase => to_uppercase,
        TransformKind::ToLowercase => to_lowercase,
        TransformKind::ToNormalized => to_normalized,
        TransformKind::ToTitlecase => to_titlecase,
    }
}

/// A plan holds each kind at most once; an entry of a kind carries exactly
/// the columns given for that kind; and a kind is in the plan exactly when
/// columns were given for it.
pub proof fn lemma_plan_entries(
    to_uppercase: Option<Seq<Seq<char>>>,
    to_lowercase: Option<Seq<Seq<char>>>,
    to_normalized: Option<Seq<Seq<char>>>,
    to_titlecase: Option<Seq<Seq<char>>>,
)
    ensures
        ({
            let p = plan_spec(to_uppercase, to_lowercase, to_normalized, to_titlecase);
            &&& forall|i: int, j: int|
                0 <= i < j < p.len() ==> #[trigger] p[i].kind != #[trigger] p[j].kind
            &&& forall|i: int|
                0 <= i < p.len() ==> option_for(
                    (#[trigger] p[i]).kind,
                    to_uppercase,
                    to_lowercase,
                    to_normalized,
                    to_titlecase,
                ) == Some(p[i].columns)
            &&& forall|k: TransformKind|
                #![trigger option_for(k, to_uppercase, to_lowercase, to_normalized, to_titlecase)]
                option_for(k, to_uppercase, to_lowercase, to_normalized, to_titlecase) is Some
                    ==> exists|i: int| 0 <= i < p.len() && (#[trigger] p[i]).kind == k
        }),
{
    let a = plan_entry(TransformKind::ToUppercase, to_uppercase);
    let b = plan_entry(TransformKind::ToLowercase, to_lowercase);
    let c = plan_entry(TransformKind::ToNormalized, to_normalized);
    let d = plan_entry(TransformKind::ToTitlecase, to_titlecase);
    let p = plan_spec(to_uppercase, to_lowercase, to_normalized, to_titlecase);
    assert(p == a + b + c + d);
    let la = a.len() as int;
    let lb = b.len() as int;
    let lc = c.len() as int;
    assert forall|i: int| 0 <= i < p.len() implies {
        &&& (i < la ==> p[i] == a[i])
        &&& (la <= i < la + lb ==> p[i] == b[i - la])
        &&& (la + lb <= i < la + lb + lc ==> p[i] == c[i - la - lb])
        &&& (la + lb + lc <= i ==> p[i] == d[i - la - lb - lc])
    } by {
    }
    assert forall|k: TransformKind|
        #![trigger option_for(k, to_uppercase, to_lowercase, to_normalized, to_titlecase)]
        option_for(k, to_uppercase, to_lowercase, to_normalized, to_titlecase) is Some implies exists|i: int|
        0 <= i < p.len() && (#[trigger] p[i]).kind == k by {
        match k {
            TransformKind::ToUppercase => {
                assert(p[0].kind == k);
            },
            TransformKind::ToLowercase => {
                assert(p[la].kind == k);
            },
            TransformKind::ToNormalized => {
                assert(p[la + lb].kind == k);
            },
            TransformKind::ToTitlecase => {
                assert(p[la + lb + lc].kind == k);
            },
        }
    }
}

} // verus!
