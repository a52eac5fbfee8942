//! The `GRAPH ALGO` statement: what is asked of the engine, and how its answer
//! is rendered.

use vstd::prelude::*;

use crate::text;

verus! {

/// How many iterations may be asked for.
pub const MAX_ITERATIONS_CAP: usize = 1_000;

/// How large a sample may be asked for.
pub const MAX_SAMPLE_CAP: usize = 1_000_000;

/// A graph algorithm.
#[derive(Debug, Clone, Copy, PartialEq, Eq, Structural)]
pub enum GraphAlgorithm {
    PageRank,
    Wcc,
    LabelPropagation,
    Lcc,
    Sssp,
    Betweenness,
    Closeness,
    Harmonic,
    Degree,
    Louvain,
    Triangles,
    Diameter,
    KCore,
}

/// The algorithm that a statement names.
pub open spec fn algorithm_named(name: Seq<char>) -> Option<GraphAlgorithm> {
    if name == "PAGERANK"@ {
        Some(GraphAlgorithm::PageRank)
    } else if name == "WCC"@ {
        Some(GraphAlgorithm::Wcc)
    } else if name == "COMMUNITY"@ {
        Some(GraphAlgorithm::LabelPropagation)
    } else if name == "LCC"@ {
        Some(GraphAlgorithm::Lcc)
    } else if name == "SSSP"@ {
        Some(GraphAlgorithm::Sssp)
    } else if name == "BETWEENNESS"@ {
        Some(GraphAlgorithm::Betweenness)
    } else if name == "CLOSENESS"@ {
        Some(GraphAlgorithm::Closeness)
    } else if name == "HARMONIC"@ {
        Some(GraphAlgorithm::Harmonic)
    } else if name == "DEGREE"@ {
        Some(GraphAlgorithm::Degree)
    } else if name == "LOUVAIN"@ {
        Some(GraphAlgorithm::Louvain)
    } else if name == "TRIANGLES"@ {
        Some(GraphAlgorithm::Triangles)
    } else if name == "DIAMETER"@ {
        Some(GraphAlgorithm::Diameter)
    } else if name == "KCORE"@ {
        Some(GraphAlgorithm::KCore)
    } else {
        None
    }
}

/// Why a statement was refused.
#[derive(Debug)]
pub struct SqlError {
    /// The five characters that clients go by.
    pub code: String,
    pub message: String,
}

impl SqlError {
    /// Whether this is the error with that code and message.
    pub open spec fn is(&self, code: Seq<char>, message: Seq<char>) -> bool {
        self.code@ == code && self.message@ == message
    }
}

/// What a statement says. Floating-point settings are carried as their bits.
pub struct AlgoRequest {
    pub algorithm_name: String,
    pub collection: String,
    pub edge_label: Option<String>,
    pub damping_bits: Option<u64>,
    pub tolerance_bits: Option<u64>,
    pub resolution_bits: Option<u64>,
    pub max_iterations: Option<usize>,
    pub sample_size: Option<usize>,
    pub source_node: Option<String>,
    pub direction: Option<String>,
    pub mode: Option<String>,
}

/// What the engine is asked to run.
pub struct AlgoPlan {
    pub algorithm: GraphAlgorithm,
    pub collection: String,
    pub edge_label: Option<String>,
    pub damping_bits: Option<u64>,
    pub tolerance_bits: Option<u64>,
    pub resolution_bits: Option<u64>,
    pub max_iterations: Option<usize>,
    pub sample_size: Option<usize>,
    pub source_node: Option<String>,
    pub direction: Option<String>,
    pub mode: Option<String>,
    /// Weights of nodes, each as the bits of a number; a statement gives none.
    pub personalization_vector: Option<Vec<(String, u64)>>,
}

/// Whether a setting is within its cap.
pub open spec fn within(value: Option<usize>, cap: usize) -> bool {
    value matches Some(v) ==> v <= cap
}

/// What is said of a setting that is over its cap.
pub open spec fn over_cap(field: Seq<char>, value: int, cap: int) -> Seq<char> {
    field + " "@ + text::decimal(value) + " exceeds maximum allowed value "@ + text::decimal(cap)
}

/// The setting itself, if it is within its cap.
pub fn clamp_opt(value: Option<usize>, field: &str, cap: usize) -> (r: Result<
    Option<usize>,
    SqlError,
>)
    ensures
        within(value, cap) ==> r == Ok::<Option<usize>, SqlError>(value),
        !within(value, cap) ==> (r matches Err(e) && e.is(
            "22023"@,
            over_cap(field@, value->0 as int, cap as int),
        )),
{
    match value {
        Some(v) => {
            if v > cap {
                let mut s = field.to_owned();
                s.append(" ");
                text::push_decimal(&mut s, v as u64);
                s.append(" exceeds maximum allowed value ");
                text::push_decimal(&mut s, cap as u64);
                Err(SqlError { code: "22023".to_owned(), message: s })
            } else {
                Ok(Some(v))
            }
        },
        None => Ok(None),
    }
}

/// The algorithm that a statement names.
pub fn algorithm_for(name: &String) -> (r: Result<GraphAlgorithm, SqlError>)
    ensures
        match algorithm_named(name@) {
            Some(a) => r == Ok::<GraphAlgorithm, SqlError>(a),
            None => r matches Err(e) && e.is(
                "42601"@,
                "unknown graph algorithm '"@ + name@ + "'"@,
            ),
        },
{
    if *name == "PAGERANK".to_owned() {
        Ok(GraphAlgorithm::PageRank)
    } else if *name == "WCC".to_owned() {
        Ok(GraphAlgorithm::Wcc)
    } else if *name == "COMMUNITY".to_owned() {
        Ok(GraphAlgorithm::LabelPropagation)
    } else if *name == "LCC".to_owned() {
        Ok(GraphAlgorithm::Lcc)
    } else if *name == "SSSP".to_owned() {
        Ok(GraphAlgorithm::Sssp)
    } else if *name == "BETWEENNESS".to_owned() {
        Ok(GraphAlgorithm::Betweenness)
    } else if *name == "CLOSENESS".to_owned() {
        Ok(GraphAlgorithm::Closeness)
    } else if *name == "HARMONIC".to_owned() {
        Ok(GraphAlgorithm::Harmonic)
    } else if *name == "DEGREE".to_owned() {
        Ok(GraphAlgorithm::Degree)
    } else if *name == "LOUVAIN".to_owned() {
        Ok(GraphAlgorithm::Louvain)
    } else if *name == "TRIANGLES".to_owned() {
        Ok(GraphAlgorithm::Triangles)
    } else if *name == "DIAMETER".to_owned() {
        Ok(GraphAlgorithm::Diameter)
    } else if *name == "KCORE".to_owned() {
        Ok(GraphAlgorithm::KCore)
    } else {
        let mut s = "unknown graph algorithm '".to_owned();
        s.append(name.as_str());
        s.append("'");
        Err(SqlError { code: "42601".to_owned(), message: s })
    }
}

/// Whether `r` is what a statement comes to. The name is looked at first, then
/// the number of iterations, then the size of the sample.
pub open spec fn planned(req: AlgoRequest, r: Result<AlgoPlan, SqlError>) -> bool {
    match algorithm_named(req.algorithm_name@) {
        None => r matches Err(e) && e.is(
            "42601"@,
            "unknown graph algorithm '"@ + req.algorithm_name@ + "'"@,
        ),
        Some(a) => if !within(req.max_iterations, MAX_ITERATIONS_CAP) {
            r matches Err(e) && e.is(
                "22023"@,
                over_cap(
                    "ITERATIONS"@,
                    req.max_iterations->0 as int,
                    MAX_ITERATIONS_CAP as int,
                ),
            )
        } else if !within(req.sample_size, MAX_SAMPLE_CAP) {
            r matches Err(e) && e.is(
                "22023"@,
                over_cap("SAMPLE"@, req.sample_size->0 as int, MAX_SAMPLE_CAP as int),
            )
        } else {
            r == Ok::<AlgoPlan, SqlError>(
                (AlgoPlan {
                    algorithm: a,
                    collection: req.collection,
                    edge_label: req.edge_label,
                    damping_bits: req.damping_bits,
                    tolerance_bits: req.tolerance_bits,
                    resolution_bits: req.resolution_bits,
                    max_iterations: req.max_iterations,
                    sample_size: req.sample_size,
                    source_node: req.source_node,
                    direction: req.direction,
                    mode: req.mode,
                    personalization_vector: None,
                }),
            )
        },
    }
}

/// What the engine is asked to run for a statement. The name is looked at
/// first, then the number of iterations, then the size of the sample.
pub fn algo(req: AlgoRequest) -> (r: Result<AlgoPlan, SqlError>)
    ensures
        planned(req, r),
{
    let algorithm = match algorithm_for(&req.algorithm_name) {
        Ok(a) => a,
        Err(e) => {
            return Err(e);
        },
    };
    let max_iterations = match clamp_opt(req.max_iterations, "ITERATIONS", MAX_ITERATIONS_CAP) {
        Ok(v) => v,
        Err(e) => {
            return Err(e);
        },
    };
    let sample_size = match clamp_opt(req.sample_size, "SAMPLE", MAX_SAMPLE_CAP) {
        Ok(v) => v,
        Err(e) => {
            return Err(e);
        },
    };
    Ok(
        AlgoPlan {
            algorithm,
            collection: req.collection,
            edge_label: req.edge_label,
            damping_bits: req.damping_bits,
            tolerance_bits: req.tolerance_bits,
            resolution_bits: req.resolution_bits,
            max_iterations,
            sample_size,
            source_node: req.source_node,
            direction: req.direction,
            mode: req.mode,
            personalization_vector: None,
        },
    )
}

/// What a column of a result holds.
#[derive(Debug, Clone, Copy, PartialEq, Eq, Structural)]
pub enum AlgoColumnType {
    Text,
    Float64,
    Int64,
}

/// A column of a result.
pub struct AlgoColumn {
    pub name: String,
    pub kind: AlgoColumnType,
}

/// What a row's field is, read in each of the three ways. A field that is
/// missing is none of them.
pub struct JsonCell {
    pub text: Option<String>,
    /// A number, in the way that floating-point numbers are printed.
    pub number: Option<String>,
    pub int: Option<i64>,
}

/// A field read in the three ways: as text, as a number, as an integer.
pub type FieldView = (Option<Seq<char>>, Option<Seq<char>>, Option<i64>);

/// The text in an option.
pub open spec fn text_view(o: Option<String>) -> Option<Seq<char>> {
    match o {
        Some(s) => Some(s@),
        None => None,
    }
}

impl View for JsonCell {
    type V = FieldView;

    open spec fn view(&self) -> FieldView {
        (text_view(self.text), text_view(self.number), self.int)
    }
}

/// A value of the JSON library.
#[verifier::external_type_specification]
#[verifier::external_body]
pub struct ExJsonValue(serde_json::Value);

/// The fields of a JSON value that is an object, each read in the three ways;
/// no fields for any other value.
pub uninterp spec fn json_fields(v: serde_json::Value) -> Map<
    Seq<char>,
    (Option<Seq<char>>, Option<Seq<char>>, Option<i64>),
>;

/// The rows that a JSON text lists, each by its fields, or what is said of a
/// text that is not a JSON list.
pub uninterp spec fn parsed_rows(text: Seq<char>) -> Result<
    Seq<Map<Seq<char>, (Option<Seq<char>>, Option<Seq<char>>, Option<i64>)>>,
    Seq<char>,
>;

/// The fields of each value.
pub open spec fn rows_fields(rows: Seq<serde_json::Value>) -> Seq<Map<Seq<char>, FieldView>> {
    Seq::new(rows.len(), |i: int| json_fields(rows[i]))
}

/// Calls `sonic_rs::from_str` for a list of `serde_json::Value`. What it makes
/// of a text depends on the text alone, and so does what it says of a text that
/// it refuses; the grammar itself is not restated.
#[verifier::external_body]
fn parse_rows(text: &String) -> (r: Result<Vec<serde_json::Value>, String>)
    ensures
        match r {
            Ok(v) => parsed_rows(text@) == Ok::<Seq<Map<Seq<char>, FieldView>>, Seq<char>>(
                rows_fields(v@),
            ),
            Err(e) => parsed_rows(text@) == Err::<Seq<Map<Seq<char>, FieldView>>, Seq<char>>(e@),
        },
{
    sonic_rs::from_str::<Vec<serde_json::Value>>(text).map_err(|e| e.to_string())
}

/// The field of that name, read in the three ways.
pub open spec fn field_of(fields: Map<Seq<char>, FieldView>, name: Seq<char>) -> FieldView {
    if fields.contains_key(name) {
        fields[name]
    } else {
        (None, None, None)
    }
}

/// Calls `serde_json::Value::get` and `as_str`: the field's text, if there is
/// such a field and it is a string.
#[verifier::external_body]
fn field_text(row: &serde_json::Value, name: &String) -> (r: Option<String>)
    ensures
        text_view(r) == field_of(json_fields(*row), name@).0,
{
    row.get(name).and_then(|f| f.as_str()).map(|s| s.to_string())
}

/// Calls `serde_json::Value::get` and `as_f64`: the field's number as std
/// prints it, if there is such a field and it is a number.
#[verifier::external_body]
fn field_number(row: &serde_json::Value, name: &String) -> (r: Option<String>)
    ensures
        text_view(r) == field_of(json_fields(*row), name@).1,
{
    row.get(name).and_then(|f| f.as_f64()).map(|v| format!("{v}"))
}

/// Calls `serde_json::Value::get` and `as_i64`: the field's integer, if there
/// is such a field and it is a number that is one and fits.
#[verifier::external_body]
fn field_int(row: &serde_json::Value, name: &String) -> (r: Option<i64>)
    ensures
        r == field_of(json_fields(*row), name@).2,
{
    row.get(name).and_then(|f| f.as_i64())
}

/// How a field is shown in a column: text as it is, or nothing; a number as it
/// is printed, or `Infinity`; an integer in decimal, or 0.
pub open spec fn shown(cell: FieldView, kind: AlgoColumnType) -> Seq<char> {
    match kind {
        AlgoColumnType::Text => match cell.0 {
            Some(s) => s,
            None => Seq::empty(),
        },
        AlgoColumnType::Float64 => match cell.1 {
            Some(s) => s,
            None => "Infinity"@,
        },
        AlgoColumnType::Int64 => match cell.2 {
            Some(v) => text::signed_decimal(v as int),
            None => "0"@,
        },
    }
}

/// How a field is shown in a column.
pub fn render_cell(cell: JsonCell, kind: AlgoColumnType) -> (r: String)
    ensures
        r@ == shown(cell@, kind),
{
    match kind {
        AlgoColumnType::Text => match cell.text {
            Some(s) => s,
            None => {
                let s = String::new();
                assert(s@ =~= Seq::<char>::empty());
                s
            },
        },
        AlgoColumnType::Float64 => match cell.number {
            Some(s) => s,
            None => "Infinity".to_owned(),
        },
        AlgoColumnType::Int64 => match cell.int {
            Some(v) => text::signed_decimal_text(v),
            None => "0".to_owned(),
        },
    }
}

/// Whether a row shows these fields in these columns.
pub open spec fn row_shows(
    row: Seq<String>,
    fields: Map<Seq<char>, FieldView>,
    schema: Seq<AlgoColumn>,
) -> bool {
    row.len() == schema.len() && forall|c: int|
        0 <= c < schema.len() ==> (#[trigger] row[c])@ == shown(
            field_of(fields, schema[c].name@),
            schema[c].kind,
        )
}

/// One row, as it is shown.
fn render_row(row: &serde_json::Value, schema: &Vec<AlgoColumn>) -> (r: Vec<String>)
    ensures
        row_shows(r@, json_fields(*row), schema@),
{
    let mut out: Vec<String> = Vec::new();
    let mut c: usize = 0;
    while c < schema.len()
        invariant
            c <= schema@.len(),
            out@.len() == c,
            forall|k: int|
                0 <= k < c ==> (#[trigger] out@[k])@ == shown(
                    field_of(json_fields(*row), schema@[k].name@),
                    schema@[k].kind,
                ),
        decreases schema@.len() - c,
    {
        let name = &schema[c].name;
        let cell = JsonCell {
            text: field_text(row, name),
            number: field_number(row, name),
            int: field_int(row, name),
        };
        out.push(render_cell(cell, schema[c].kind));
        c = c + 1;
    }
    out
}

/// Whether `r` shows the rows of an answer, all of them and in order, or says
/// why the answer could not be read.
pub open spec fn rendered(
    parsed: Result<Seq<Map<Seq<char>, FieldView>>, Seq<char>>,
    schema: Seq<AlgoColumn>,
    r: Result<Vec<Vec<String>>, SqlError>,
) -> bool {
    match parsed {
        Ok(rows) => r matches Ok(v) && v@.len() == rows.len() && forall|i: int|
            0 <= i < rows.len() ==> row_shows(#[trigger] v@[i]@, rows[i], schema),
        Err(e) => r matches Err(x) && x.is("XX000"@, "invalid algorithm result JSON: "@ + e),
    }
}

/// The rows of an engine's answer, as they are shown. No text stands for an
/// answer without a payload.
pub fn algo_payload_to_query_response(
    json_text: &Option<String>,
    schema: &Vec<AlgoColumn>,
) -> (r: Result<Vec<Vec<String>>, SqlError>)
    ensures
        match *json_text {
            None => r matches Ok(v) && v@.len() == 0,
            Some(t) => rendered(parsed_rows(t@), schema@, r),
        },
{
    match json_text {
        None => Ok(Vec::new()),
        Some(t) => {
            let rows = match parse_rows(t) {
                Ok(rows) => rows,
                Err(e) => {
                    let mut s = "invalid algorithm result JSON: ".to_owned();
                    s.append(e.as_str());
                    return Err(SqlError { code: "XX000".to_owned(), message: s });
                },
            };
            let mut out: Vec<Vec<String>> = Vec::new();
            let mut i: usize = 0;
            while i < rows.len()
                invariant
                    i <= rows@.len(),
                    out@.len() == i,
                    forall|k: int|
                        0 <= k < i ==> row_shows(
                            #[trigger] out@[k]@,
                            json_fields(rows@[k]),
                            schema@,
                        ),
                decreases rows@.len() - i,
            {
                out.push(render_row(&rows[i], schema));
                i = i + 1;
            }
            Ok(out)
        },
    }
}

} // verus!
