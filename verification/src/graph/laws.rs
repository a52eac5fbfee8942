//! What a graph statement and the rendering of its answer can be relied on for.

use vstd::prelude::*;

use crate::graph::algo;
use crate::graph::algo::{
    AlgoColumn, AlgoColumnType, AlgoPlan, AlgoRequest, FieldView, GraphAlgorithm, SqlError,
};
use crate::text;

verus! {

/// Each algorithm has one name, and no name stands for two.
pub proof fn law_each_algorithm_has_one_name(a: Seq<char>, b: Seq<char>)
    ensures
        algo::algorithm_named(a) is Some && algo::algorithm_named(a) == algo::algorithm_named(b)
            ==> a == b,
{
}

/// The name under which an algorithm is asked for.
pub open spec fn name_of(a: GraphAlgorithm) -> Seq<char> {
    match a {
        GraphAlgorithm::PageRank => "PAGERANK"@,
        GraphAlgorithm::Wcc => "WCC"@,
        GraphAlgorithm::LabelPropagation => "COMMUNITY"@,
        GraphAlgorithm::Lcc => "LCC"@,
        GraphAlgorithm::Sssp => "SSSP"@,
        GraphAlgorithm::Betweenness => "BETWEENNESS"@,
        GraphAlgorithm::Closeness => "CLOSENESS"@,
        GraphAlgorithm::Harmonic => "HARMONIC"@,
        GraphAlgorithm::Degree => "DEGREE"@,
        GraphAlgorithm::Louvain => "LOUVAIN"@,
        GraphAlgorithm::Triangles => "TRIANGLES"@,
        GraphAlgorithm::Diameter => "DIAMETER"@,
        GraphAlgorithm::KCore => "KCORE"@,
    }
}

/// Every algorithm can be asked for by its name, and a name that stands for an
/// algorithm is that algorithm's.
pub proof fn law_every_algorithm_can_be_asked_for(a: GraphAlgorithm, name: Seq<char>)
    ensures
        algo::algorithm_named(name_of(a)) == Some(a),
        algo::algorithm_named(name) == Some(a) ==> name == name_of(a),
{
    reveal_strlit("PAGERANK");
    reveal_strlit("WCC");
    reveal_strlit("COMMUNITY");
    reveal_strlit("LCC");
    reveal_strlit("SSSP");
    reveal_strlit("BETWEENNESS");
    reveal_strlit("CLOSENESS");
    reveal_strlit("HARMONIC");
    reveal_strlit("DEGREE");
    reveal_strlit("LOUVAIN");
    reveal_strlit("TRIANGLES");
    reveal_strlit("DIAMETER");
    reveal_strlit("KCORE");
    assert("PAGERANK"@[0] == 'P');
    assert("WCC"@[0] == 'W');
    assert("COMMUNITY"@[0] == 'C' && "COMMUNITY"@[1] == 'O');
    assert("LCC"@[0] == 'L' && "LCC"@[1] == 'C');
    assert("SSSP"@[0] == 'S');
    assert("BETWEENNESS"@[0] == 'B');
    assert("CLOSENESS"@[0] == 'C' && "CLOSENESS"@[1] == 'L');
    assert("HARMONIC"@[0] == 'H');
    assert("DEGREE"@[0] == 'D' && "DEGREE"@[1] == 'E');
    assert("LOUVAIN"@[0] == 'L' && "LOUVAIN"@[1] == 'O');
    assert("TRIANGLES"@[0] == 'T');
    assert("DIAMETER"@[0] == 'D' && "DIAMETER"@[1] == 'I');
    assert("KCORE"@[0] == 'K');
}

/// A setting that is not given is always within its cap; one that is given is
/// exactly if it is no larger: a thousand iterations, a sample of a million.
pub proof fn law_caps_are_inclusive(v: usize)
    ensures
        algo::within(None, algo::MAX_ITERATIONS_CAP),
        algo::within(None, algo::MAX_SAMPLE_CAP),
        algo::within(Some(v), algo::MAX_ITERATIONS_CAP) <==> v <= 1_000,
        algo::within(Some(v), algo::MAX_SAMPLE_CAP) <==> v <= 1_000_000,
{
}

/// What is said of a setting over its cap names the setting, the value and the
/// cap.
pub proof fn law_refusal_names_value_and_cap(field: Seq<char>, value: int, cap: int)
    ensures
        ({
            let s = algo::over_cap(field, value, cap);
            &&& field.is_prefix_of(s)
            &&& text::decimal(cap).is_suffix_of(s)
            &&& s == field + " "@ + text::decimal(value) + " exceeds maximum allowed value "@
                + text::decimal(cap)
        }),
{
    let s = algo::over_cap(field, value, cap);
    let c = text::decimal(cap);
    assert(field =~= s.subrange(0, field.len() as int));
    assert(c =~= s.subrange((s.len() - c.len()) as int, s.len() as int));
}

/// A field is shown as what it is read as in its column: the text, the number
/// or the integer itself. A field that is not of that kind, or missing, shows as
/// nothing, as `Infinity` and as 0.
pub proof fn law_fields_are_shown_as_they_read(cell: FieldView)
    ensures
        cell.0 is Some ==> algo::shown(cell, AlgoColumnType::Text) == cell.0->0,
        cell.0 is None ==> algo::shown(cell, AlgoColumnType::Text).len() == 0,
        cell.1 is Some ==> algo::shown(cell, AlgoColumnType::Float64) == cell.1->0,
        cell.1 is None ==> algo::shown(cell, AlgoColumnType::Float64) == "Infinity"@,
        cell.2 is Some && cell.2->0 >= 0 ==> algo::shown(cell, AlgoColumnType::Int64)
            == text::decimal(cell.2->0 as int),
        cell.2 is Some && cell.2->0 < 0 ==> algo::shown(cell, AlgoColumnType::Int64) == "-"@
            + text::decimal(-(cell.2->0 as int)),
        cell.2 is None ==> algo::shown(cell, AlgoColumnType::Int64) == "0"@,
{
}

/// A row is shown column by column, in the order of the columns, each from the
/// field of the column's name.
pub proof fn law_rows_are_shown_by_column(
    row: Seq<String>,
    fields: Map<Seq<char>, FieldView>,
    schema: Seq<AlgoColumn>,
    c: int,
)
    requires
        algo::row_shows(row, fields, schema),
        0 <= c < schema.len(),
    ensures
        row.len() == schema.len(),
        schema[c].kind == AlgoColumnType::Text && fields.contains_key(schema[c].name@)
            && fields[schema[c].name@].0 is Some ==> row[c]@ == fields[schema[c].name@].0->0,
        schema[c].kind == AlgoColumnType::Float64 && fields.contains_key(schema[c].name@)
            && fields[schema[c].name@].1 is Some ==> row[c]@ == fields[schema[c].name@].1->0,
        !fields.contains_key(schema[c].name@) ==> row[c]@ == match schema[c].kind {
            AlgoColumnType::Text => Seq::<char>::empty(),
            AlgoColumnType::Float64 => "Infinity"@,
            AlgoColumnType::Int64 => "0"@,
        },
{
    assert(row[c]@ == algo::shown(
        algo::field_of(fields, schema[c].name@),
        schema[c].kind,
    ));
}

/// A statement that names an algorithm and keeps to the caps is run as it was
/// written: with that algorithm and every one of its settings.
pub proof fn law_statement_is_run_as_written(
    req: AlgoRequest,
    r: Result<AlgoPlan, SqlError>,
    a: GraphAlgorithm,
)
    requires
        algo::planned(req, r),
        req.algorithm_name@ == name_of(a),
    ensures
        r is Ok <==> (req.max_iterations is None || req.max_iterations->0 <= 1_000) && (
        req.sample_size is None || req.sample_size->0 <= 1_000_000),
        r matches Ok(p) ==> {
            &&& p.algorithm == a
            &&& p.collection == req.collection
            &&& p.edge_label == req.edge_label
            &&& p.damping_bits == req.damping_bits
            &&& p.tolerance_bits == req.tolerance_bits
            &&& p.resolution_bits == req.resolution_bits
            &&& p.max_iterations == req.max_iterations
            &&& p.sample_size == req.sample_size
            &&& p.source_node == req.source_node
            &&& p.direction == req.direction
            &&& p.mode == req.mode
            &&& p.personalization_vector is None
        },
        r matches Err(e) ==> e.code@ == "22023"@,
        r matches Err(e) ==> e.message@ == if req.max_iterations is Some
            && req.max_iterations->0 > 1_000 {
            algo::over_cap("ITERATIONS"@, req.max_iterations->0 as int, 1_000)
        } else {
            algo::over_cap("SAMPLE"@, req.sample_size->0 as int, 1_000_000)
        },
{
    law_every_algorithm_can_be_asked_for(a, req.algorithm_name@);
}

/// A statement that names no algorithm is refused as one that is not well
/// formed, whatever else it says.
pub proof fn law_unknown_algorithm_is_refused(req: AlgoRequest, r: Result<AlgoPlan, SqlError>)
    requires
        algo::planned(req, r),
        forall|a: GraphAlgorithm| req.algorithm_name@ != #[trigger] name_of(a),
    ensures
        r matches Err(e) && e.code@ == "42601"@ && e.message@ == "unknown graph algorithm '"@
            + req.algorithm_name@ + "'"@,
{
    if algo::algorithm_named(req.algorithm_name@) is Some {
        let a = algo::algorithm_named(req.algorithm_name@)->0;
        law_every_algorithm_can_be_asked_for(a, req.algorithm_name@);
        assert(req.algorithm_name@ == name_of(a));
    }
}

/// Every row of an answer is shown, in the order in which they came.
pub proof fn law_every_row_is_shown(
    rows: Seq<Map<Seq<char>, FieldView>>,
    schema: Seq<AlgoColumn>,
    r: Result<Vec<Vec<String>>, SqlError>,
    i: int,
)
    requires
        algo::rendered(Ok(rows), schema, r),
        0 <= i < rows.len(),
    ensures
        r is Ok,
        r->Ok_0@.len() == rows.len(),
        r->Ok_0@[i]@.len() == schema.len(),
        algo::row_shows(r->Ok_0@[i]@, rows[i], schema),
{
    assert(algo::row_shows(r->Ok_0@[i]@, rows[i], schema));
}

} // verus!
