//! Query synthesis: the `SELECT` projection with its `INNER JOIN` clauses,
//! the destination column list, and the literal `VALUES` tuples.
use vstd::prelude::*;
use crate::model::StringPair;
use crate::model::TransferError;
use crate::row::Cell;
use crate::row::FetchedRow;
use crate::row::apply_rules;
use crate::row::coerce_to_text;
use crate::row::coerced_text;
use crate::row::rewritten;
use crate::row::rules_seq;
use crate::text::alias_chars;
use crate::text::alias_text;
use crate::text::append_missing;
use crate::text::escape_quotes;
use crate::text::escape_text;
use crate::text::first_occ;
use crate::text::join_strings;
use crate::text::join_with;
use crate::text::lemma_append_missing_props;
use crate::text::lemma_skip_succ;
use crate::text::lemma_str_views;
use crate::text::lemma_take_succ;
use crate::text::no_dups;
use crate::text::split_char;
use crate::text::split_once_char;
use crate::text::split_seg2;
use crate::text::str_views;
use crate::text::vec_contains_string;

verus! {

/// The static columns of `o` as a sequence, empty when absent.
pub open spec fn statics_seq(o: Option<Vec<(String, String)>>) -> Seq<(String, String)> {
    match o {
        Some(v) => v@,
        None => Seq::empty(),
    }
}

/// Whether a raw source reference addresses a related table (holds a `/`).
pub open spec fn is_cross(src: Seq<char>) -> bool {
    split_char(src, '/').len() >= 2
}

/// The `joinTable.joinColumn` segment of a cross-table reference.
pub open spec fn join_seg(src: Seq<char>) -> Seq<char> {
    split_char(src, '/')[0]
}

/// The `[selectTable.]selectColumn` segment of a cross-table reference.
pub open spec fn sel_seg(src: Seq<char>) -> Seq<char> {
    split_char(src, '/')[1]
}

/// A cross-table reference is well formed when its join segment names its
/// owning table with a `.`; the join column's table is literal and required.
pub open spec fn cross_ok(src: Seq<char>) -> bool {
    first_occ(join_seg(src), '.') < join_seg(src).len()
}

/// Every cross-table reference among `cols` is well formed.
pub open spec fn cols_ok(cols: Seq<StringPair>) -> bool {
    forall|k: int| 0 <= k < cols.len() ==> is_cross(cols[k].source@) ==> cross_ok(cols[k].source@)
}

/// The table a cross-table reference selects from: the part of the select
/// segment before its `.`, or the primary source table when it has none.
pub open spec fn sel_table(tsrc: Seq<char>, src: Seq<char>) -> Seq<char> {
    let ss = sel_seg(src);
    let i = first_occ(ss, '.');
    if i < ss.len() {
        ss.take(i)
    } else {
        tsrc
    }
}

/// The column a cross-table reference selects.
pub open spec fn sel_col(src: Seq<char>) -> Seq<char> {
    let ss = sel_seg(src);
    let i = first_occ(ss, '.');
    if i < ss.len() {
        ss.skip(i + 1)
    } else {
        ss
    }
}

/// The table owning the join column of a cross-table reference.
pub open spec fn join_table(src: Seq<char>) -> Seq<char> {
    join_seg(src).take(first_occ(join_seg(src), '.'))
}

/// The join column of a cross-table reference.
pub open spec fn join_col(src: Seq<char>) -> Seq<char> {
    join_seg(src).skip(first_occ(join_seg(src), '.') + 1)
}

/// One projection entry: `table.column` for a simple reference, or
/// `selectTable.selectColumn AS alias` for a cross-table one.
pub open spec fn from_col_of(tsrc: Seq<char>, src: Seq<char>) -> Seq<char> {
    if is_cross(src) {
        sel_table(tsrc, src) + "."@ + sel_col(src) + " AS "@ + alias_chars(src)
    } else {
        tsrc + "."@ + src
    }
}

/// The join clause a cross-table reference contributes.
pub open spec fn join_clause_of(tsrc: Seq<char>, src: Seq<char>) -> Seq<char> {
    "INNER JOIN "@ + sel_table(tsrc, src) + " ON "@ + join_table(src) + "."@ + join_col(src)
        + " = "@ + sel_table(tsrc, src) + "."@ + join_col(src)
}

/// The projection entries of the column mappings, in mapping order.
pub open spec fn from_cols_of(tsrc: Seq<char>, cols: Seq<StringPair>) -> Seq<Seq<char>> {
    cols.map_values(|c: StringPair| from_col_of(tsrc, c.source@))
}

/// The join clauses of the column mappings, one per cross-table reference,
/// in mapping order and without de-duplication.
pub open spec fn joins_of(tsrc: Seq<char>, cols: Seq<StringPair>) -> Seq<Seq<char>>
    decreases cols.len(),
{
    if cols.len() == 0 {
        Seq::empty()
    } else if is_cross(cols.last().source@) {
        joins_of(tsrc, cols.drop_last()).push(join_clause_of(tsrc, cols.last().source@))
    } else {
        joins_of(tsrc, cols.drop_last())
    }
}

/// The source columns the update rules read, in rule order.
pub open spec fn update_srcs_of(rules: Seq<(String, String, String, String)>) -> Seq<Seq<char>> {
    rules.map_values(|r: (String, String, String, String)| r.0@)
}

/// The destination columns the update rules write, in rule order.
pub open spec fn update_dests_of(rules: Seq<(String, String, String, String)>) -> Seq<Seq<char>> {
    rules.map_values(|r: (String, String, String, String)| r.2@)
}

/// The names of the static columns, in declaration order.
pub open spec fn static_names_of(statics: Seq<(String, String)>) -> Seq<Seq<char>> {
    statics.map_values(|p: (String, String)| p.0@)
}

/// One static pseudo-projection, `'value' AS name`.
pub open spec fn static_proj_of(name: Seq<char>, value: Seq<char>) -> Seq<char> {
    "'"@ + value + "' AS "@ + name
}

/// The static pseudo-projections, in declaration order.
pub open spec fn static_projs_of(statics: Seq<(String, String)>) -> Seq<Seq<char>> {
    statics.map_values(|p: (String, String)| static_proj_of(p.0@, p.1@))
}

/// The whole `SELECT` projection: the mapped columns in order, then each
/// distinct update source column, then the static pseudo-projections.
pub open spec fn projection_of(
    tsrc: Seq<char>,
    cols: Seq<StringPair>,
    statics: Seq<(String, String)>,
    rules: Seq<(String, String, String, String)>,
) -> Seq<Seq<char>> {
    from_cols_of(tsrc, cols) + append_missing(Seq::empty(), update_srcs_of(rules))
        + static_projs_of(statics)
}

/// The destination name of a raw dest reference: the segment after the first
/// `/` when one is present, the whole reference otherwise.
pub open spec fn dest_name(d: Seq<char>) -> Seq<char> {
    if split_char(d, '/').len() >= 2 {
        split_char(d, '/')[1]
    } else {
        d
    }
}

/// The destination names of the column mappings, in mapping order.
pub open spec fn dest_names_of(cols: Seq<StringPair>) -> Seq<Seq<char>> {
    cols.map_values(|c: StringPair| dest_name(c.dest@))
}

/// The destination column list: mapped destinations, then static columns,
/// then update destinations, with duplicates suppressed so that the first
/// occurrence wins and the order of appearance is preserved.
pub open spec fn dest_cols_of(
    cols: Seq<StringPair>,
    statics: Seq<(String, String)>,
    rules: Seq<(String, String, String, String)>,
) -> Seq<Seq<char>> {
    append_missing(
        Seq::empty(),
        dest_names_of(cols) + static_names_of(statics) + update_dests_of(rules),
    )
}

/// The distinct source columns named by the update rules, first occurrence
/// first, so their values are fetched for the rewrite step.
#[verifier::loop_isolation(false)]
pub fn get_update_source_columns(updates: &Option<Vec<(String, String, String, String)>>) -> (r:
    Vec<String>)
    ensures
        str_views(r@) == append_missing(Seq::empty(), update_srcs_of(rules_seq(*updates))),
{
    let mut out: Vec<String> = Vec::new();
    let rules = match updates {
        Some(v) => v,
        None => {
            return out;
        },
    };
    let ghost srcs = update_srcs_of(rules@);
    proof {
        assert(srcs.skip(0) =~= srcs);
    }
    let mut i: usize = 0;
    while i < rules.len()
        invariant
            i <= rules.len(),
            append_missing(Seq::empty(), srcs) == append_missing(str_views(out@), srcs.skip(i as int)),
        decreases rules.len() - i,
    {
        proof {
            lemma_skip_succ(srcs, i as int);
        }
        let present = vec_contains_string(&out, &rules[i].0);
        if !present {
            let ghost pre = out@;
            out.push(rules[i].0.clone());
            proof {
                crate::text::lemma_str_views_last(out@);
                assert(out@.drop_last() =~= pre);
                assert(str_views(out@) == str_views(pre).push(rules@[i as int].0@));
            }
        }
        i = i + 1;
    }
    proof {
        assert(srcs.skip(rules@.len() as int) =~= Seq::<Seq<char>>::empty());
    }
    out
}

/// The destination column list, comma-joined: mapped destinations (taking
/// the segment after `/` when present), static columns, then update-rule
/// destinations, first occurrence of each name only.
#[verifier::loop_isolation(false)]
pub fn build_dest_cols(
    cols: &Vec<StringPair>,
    static_cols: &Option<Vec<(String, String)>>,
    updates: &Option<Vec<(String, String, String, String)>>,
) -> (r: String)
    ensures
        r@ == join_with(
            dest_cols_of(cols@, statics_seq(*static_cols), rules_seq(*updates)),
            ", "@,
        ),
{
    let ghost raw_spec = dest_names_of(cols@) + static_names_of(statics_seq(*static_cols))
        + update_dests_of(rules_seq(*updates));
    let mut raw: Vec<String> = Vec::new();
    let mut i: usize = 0;
    while i < cols.len()
        invariant
            i <= cols.len(),
            str_views(raw@) == dest_names_of(cols@.take(i as int)),
        decreases cols.len() - i,
    {
        let name = match split_seg2(cols[i].dest.as_str(), '/') {
            Some(p) => p.1,
            None => cols[i].dest.clone(),
        };
        let ghost pre = raw@;
        raw.push(name);
        proof {
            lemma_take_succ(cols@, i as int);
            crate::text::lemma_str_views_last(raw@);
            assert(raw@.drop_last() =~= pre);
            assert(str_views(raw@) == str_views(pre).push(raw@.last()@));
            assert(str_views(raw@) =~= dest_names_of(cols@.take(i + 1)));
        }
        i = i + 1;
    }
    proof {
        assert(cols@.take(cols@.len() as int) =~= cols@);
    }
    if let Some(sv) = static_cols {
        let mut j: usize = 0;
        while j < sv.len()
            invariant
                j <= sv.len(),
                str_views(raw@) == dest_names_of(cols@) + static_names_of(sv@.take(j as int)),
            decreases sv.len() - j,
        {
            let ghost pre = raw@;
            raw.push(sv[j].0.clone());
            proof {
                lemma_take_succ(sv@, j as int);
                crate::text::lemma_str_views_last(raw@);
                assert(raw@.drop_last() =~= pre);
                assert(str_views(raw@) == str_views(pre).push(raw@.last()@));
                assert(str_views(raw@) =~= dest_names_of(cols@) + static_names_of(
                    sv@.take(j + 1),
                ));
            }
            j = j + 1;
        }
        proof {
            assert(sv@.take(sv@.len() as int) =~= sv@);
        }
    }
    proof {
        assert(static_names_of(Seq::empty()) =~= Seq::<Seq<char>>::empty());
        assert(str_views(raw@) =~= dest_names_of(cols@) + static_names_of(
            statics_seq(*static_cols),
        ));
    }
    if let Some(rules) = updates {
        let mut j: usize = 0;
        while j < rules.len()
            invariant
                j <= rules.len(),
                str_views(raw@) == dest_names_of(cols@) + static_names_of(
                    statics_seq(*static_cols),
                ) + update_dests_of(rules@.take(j as int)),
            decreases rules.len() - j,
        {
            let ghost pre = raw@;
            raw.push(rules[j].2.clone());
            proof {
                lemma_take_succ(rules@, j as int);
                crate::text::lemma_str_views_last(raw@);
                assert(raw@.drop_last() =~= pre);
                assert(str_views(raw@) == str_views(pre).push(raw@.last()@));
                assert(str_views(raw@) =~= dest_names_of(cols@) + static_names_of(
                    statics_seq(*static_cols),
                ) + update_dests_of(rules@.take(j + 1)));
            }
            j = j + 1;
        }
        proof {
            assert(rules@.take(rules@.len() as int) =~= rules@);
        }
    }
    proof {
        assert(update_dests_of(Seq::empty()) =~= Seq::<Seq<char>>::empty());
        assert(str_views(raw@) =~= raw_spec);
    }
    let mut out: Vec<String> = Vec::new();
    proof {
        assert(raw_spec.skip(0) =~= raw_spec);
    }
    let mut k: usize = 0;
    while k < raw.len()
        invariant
            k <= raw.len(),
            str_views(raw@) == raw_spec,
            append_missing(Seq::empty(), raw_spec) == append_missing(
                str_views(out@),
                raw_spec.skip(k as int),
            ),
        decreases raw.len() - k,
    {
        proof {
            lemma_str_views(raw@);
            lemma_skip_succ(raw_spec, k as int);
        }
        let present = vec_contains_string(&out, &raw[k]);
        if !present {
            let ghost pre = out@;
            out.push(raw[k].clone());
            proof {
                crate::text::lemma_str_views_last(out@);
                assert(out@.drop_last() =~= pre);
                assert(str_views(out@) == str_views(pre).push(raw@[k as int]@));
            }
        }
        k = k + 1;
    }
    proof {
        lemma_str_views(raw@);
        assert(raw_spec.skip(raw@.len() as int) =~= Seq::<Seq<char>>::empty());
    }
    join_strings(&out, ", ")
}

/// The projection list and join clauses of the `SELECT`, each comma- resp.
/// space-joined; fails when a cross-table reference's join segment names no
/// owning table.
#[verifier::loop_isolation(false)]
pub fn build_source_cols_and_joins(
    table: &StringPair,
    cols: &Vec<StringPair>,
    static_cols: &Option<Vec<(String, String)>>,
    updates: &Option<Vec<(String, String, String, String)>>,
) -> (r: Result<(String, String), TransferError>)
    ensures
        (r is Ok) <==> cols_ok(cols@),
        r matches Err(e) ==> e == TransferError::MalformedMapping,
        r matches Ok(p) ==> p.0@ == join_with(
            projection_of(table.source@, cols@, statics_seq(*static_cols), rules_seq(*updates)),
            ", "@,
        ) && p.1@ == join_with(joins_of(table.source@, cols@), " "@),
{
    let ghost tsrc = table.source@;
    let mut from_cols: Vec<String> = Vec::new();
    let mut joins: Vec<String> = Vec::new();
    let mut i: usize = 0;
    while i < cols.len()
        invariant
            i <= cols.len(),
            str_views(from_cols@) == from_cols_of(tsrc, cols@.take(i as int)),
            str_views(joins@) == joins_of(tsrc, cols@.take(i as int)),
            forall|k: int|
                0 <= k < i ==> is_cross(cols@[k].source@) ==> cross_ok(cols@[k].source@),
        decreases cols.len() - i,
    {
        let ghost src = cols@[i as int].source@;
        let ghost pre_f = from_cols@;
        let ghost pre_j = joins@;
        match split_seg2(cols[i].source.as_str(), '/') {
            Some((jp, sp)) => {
                assert(is_cross(src) && jp@ == join_seg(src) && sp@ == sel_seg(src));
                let (jt, jc) = match split_once_char(jp.as_str(), '.') {
                    Some(p) => p,
                    None => {
                        assert(!cross_ok(src));
                        return Err(TransferError::MalformedMapping);
                    },
                };
                assert(cross_ok(src) && jt@ == join_table(src) && jc@ == join_col(src));
                let (st, sc) = match split_once_char(sp.as_str(), '.') {
                    Some(p) => p,
                    None => (table.source.clone(), sp),
                };
                assert(st@ == sel_table(tsrc, src) && sc@ == sel_col(src));
                let alias = alias_text(cols[i].source.as_str());
                let mut f = st.clone();
                f.append(".");
                f.append(sc.as_str());
                f.append(" AS ");
                f.append(alias.as_str());
                assert(f@ == from_col_of(tsrc, src));
                from_cols.push(f);
                let mut jl = String::from_str("INNER JOIN ");
                jl.append(st.as_str());
                jl.append(" ON ");
                jl.append(jt.as_str());
                jl.append(".");
                jl.append(jc.as_str());
                jl.append(" = ");
                jl.append(st.as_str());
                jl.append(".");
                jl.append(jc.as_str());
                assert(jl@ == join_clause_of(tsrc, src));
                joins.push(jl);
            },
            None => {
                assert(!is_cross(src));
                let mut f = table.source.clone();
                f.append(".");
                f.append(cols[i].source.as_str());
                assert(f@ == from_col_of(tsrc, src));
                from_cols.push(f);
            },
        }
        proof {
            lemma_take_succ(cols@, i as int);
            crate::text::lemma_str_views_last(from_cols@);
            assert(from_cols@.drop_last() =~= pre_f);
            assert(str_views(from_cols@) == str_views(pre_f).push(from_cols@.last()@));
            assert(str_views(from_cols@) =~= from_cols_of(tsrc, cols@.take(i + 1)));
            if is_cross(src) {
                crate::text::lemma_str_views_last(joins@);
                assert(joins@.drop_last() =~= pre_j);
                assert(str_views(joins@) == str_views(pre_j).push(joins@.last()@));
            }
            assert(str_views(joins@) =~= joins_of(tsrc, cols@.take(i + 1)));
        }
        i = i + 1;
    }
    proof {
        assert(cols@.take(cols@.len() as int) =~= cols@);
    }
    let mut update_cols = get_update_source_columns(updates);
    let ghost upd_seq = append_missing(Seq::empty(), update_srcs_of(rules_seq(*updates)));
    let mut u: usize = 0;
    while u < update_cols.len()
        invariant
            u <= update_cols.len(),
            str_views(update_cols@) == upd_seq,
            str_views(from_cols@) == from_cols_of(tsrc, cols@) + upd_seq.take(u as int),
        decreases update_cols.len() - u,
    {
        proof {
            lemma_str_views(update_cols@);
            lemma_take_succ(upd_seq, u as int);
        }
        let ghost pre = from_cols@;
        from_cols.push(update_cols[u].clone());
        proof {
            crate::text::lemma_str_views_last(from_cols@);
            assert(from_cols@.drop_last() =~= pre);
            assert(str_views(from_cols@) == str_views(pre).push(from_cols@.last()@));
            assert(from_cols@.last()@ == upd_seq[u as int]);
            assert(str_views(from_cols@) =~= from_cols_of(tsrc, cols@) + upd_seq.take(u + 1));
        }
        u = u + 1;
    }
    proof {
        lemma_str_views(update_cols@);
        assert(upd_seq.take(update_cols@.len() as int) =~= upd_seq);
        assert(from_cols_of(tsrc, cols@) + upd_seq.take(0) =~= from_cols_of(tsrc, cols@));
    }
    if let Some(sv) = static_cols {
        let mut j: usize = 0;
        while j < sv.len()
            invariant
                j <= sv.len(),
                str_views(from_cols@) == from_cols_of(tsrc, cols@) + upd_seq + static_projs_of(
                    sv@.take(j as int),
                ),
            decreases sv.len() - j,
        {
            let mut f = String::from_str("'");
            f.append(sv[j].1.as_str());
            f.append("' AS ");
            f.append(sv[j].0.as_str());
            assert(f@ == static_proj_of(sv@[j as int].0@, sv@[j as int].1@));
            let ghost pre = from_cols@;
            from_cols.push(f);
            proof {
                lemma_take_succ(sv@, j as int);
                crate::text::lemma_str_views_last(from_cols@);
                assert(from_cols@.drop_last() =~= pre);
                assert(str_views(from_cols@) == str_views(pre).push(from_cols@.last()@));
                assert(str_views(from_cols@) =~= from_cols_of(tsrc, cols@) + upd_seq
                    + static_projs_of(sv@.take(j + 1)));
            }
            j = j + 1;
        }
        proof {
            assert(sv@.take(sv@.len() as int) =~= sv@);
        }
    }
    proof {
        assert(static_projs_of(Seq::empty()) =~= Seq::<Seq<char>>::empty());
        assert(str_views(from_cols@) =~= projection_of(
            tsrc,
            cols@,
            statics_seq(*static_cols),
            rules_seq(*updates),
        ));
    }
    let all_cols = join_strings(&from_cols, ", ");
    let all_joins = join_strings(&joins, " ");
    Ok((all_cols, all_joins))
}

/// The text of an interpretation outcome, empty when there was none.
pub open spec fn some_text(o: Option<Seq<char>>) -> Seq<char> {
    match o {
        Some(t) => t,
        None => Seq::empty(),
    }
}

/// The literal one cell contributes: its coerced text, rewritten by the
/// first matching update rule, quote-escaped and single-quoted.
pub open spec fn cell_lit_of(rules: Seq<(String, String, String, String)>, c: Cell) -> Seq<char> {
    "'"@ + escape_quotes(rewritten(rules, c.name@, some_text(coerced_text(c.value)))) + "'"@
}

/// The literals of one row's cells, in the row's own column order.
pub open spec fn row_lits_of(
    rules: Seq<(String, String, String, String)>,
    cells: Seq<Cell>,
) -> Seq<Seq<char>> {
    cells.map_values(|c: Cell| cell_lit_of(rules, c))
}

/// Every cell of the row has a successful interpretation.
pub open spec fn row_ok(cells: Seq<Cell>) -> bool {
    forall|j: int| 0 <= j < cells.len() ==> coerced_text(cells[j].value) is Some
}

/// One row's parenthesized, comma-joined tuple of literals.
pub open spec fn tuple_of(rules: Seq<(String, String, String, String)>, row: FetchedRow) -> Seq<
    char,
> {
    "("@ + join_with(row_lits_of(rules, row.cells@), ", "@) + ")"@
}

/// The tuples of all rows, in row order.
pub open spec fn tuples_of(
    rules: Seq<(String, String, String, String)>,
    rows: Seq<FetchedRow>,
) -> Seq<Seq<char>> {
    rows.map_values(|r: FetchedRow| tuple_of(rules, r))
}

/// Every cell of every row has a successful interpretation.
pub open spec fn rows_ok(rows: Seq<FetchedRow>) -> bool {
    forall|i: int| 0 <= i < rows.len() ==> row_ok(rows[i].cells@)
}

/// The whole `VALUES` list: the row tuples, comma-joined.
pub open spec fn values_text(
    rules: Seq<(String, String, String, String)>,
    rows: Seq<FetchedRow>,
) -> Seq<char> {
    join_with(tuples_of(rules, rows), ", "@)
}

/// The `VALUES` list of the fetched rows, with update rewrites and escaping
/// applied; one uncoercible cell anywhere aborts the whole clause, so no
/// partial `INSERT` is ever built.
#[verifier::loop_isolation(false)]
pub fn build_values_clause(
    rows: &Vec<FetchedRow>,
    updates: &Option<Vec<(String, String, String, String)>>,
) -> (r: Result<String, TransferError>)
    ensures
        (r is Ok) <==> rows_ok(rows@),
        r matches Ok(s) ==> s@ == values_text(rules_seq(*updates), rows@),
        r matches Err(e) ==> exists|i: int, j: int|
            0 <= i < rows@.len() && 0 <= j < rows@[i].cells@.len() && coerced_text(
                rows@[i].cells@[j].value,
            ) is None && e == (TransferError::CoercionFailure {
                column: rows@[i].cells@[j].name,
            }),
{
    let ghost rules = rules_seq(*updates);
    let mut tuples: Vec<String> = Vec::new();
    let mut i: usize = 0;
    while i < rows.len()
        invariant
            i <= rows.len(),
            str_views(tuples@) == tuples_of(rules, rows@.take(i as int)),
            forall|k: int| 0 <= k < i ==> row_ok(rows@[k].cells@),
        decreases rows.len() - i,
    {
        let cells = &rows[i].cells;
        let mut lits: Vec<String> = Vec::new();
        let mut j: usize = 0;
        while j < cells.len()
            invariant
                j <= cells.len(),
                str_views(lits@) == row_lits_of(rules, cells@.take(j as int)),
                forall|m: int| 0 <= m < j ==> coerced_text(cells@[m].value) is Some,
            decreases cells.len() - j,
        {
            let v = match coerce_to_text(&cells[j]) {
                Ok(v) => v,
                Err(e) => {
                    proof {
                        assert(!row_ok(rows@[i as int].cells@));
                        assert(!rows_ok(rows@));
                        assert(0 <= i < rows@.len() && 0 <= j < rows@[i as int].cells@.len()
                            && coerced_text(rows@[i as int].cells@[j as int].value) is None && e
                            == (TransferError::CoercionFailure {
                            column: rows@[i as int].cells@[j as int].name,
                        }));
                    }
                    return Err(e);
                },
            };
            let w = apply_rules(updates, &cells[j].name, v);
            let mut lit = String::from_str("'");
            let esc = escape_text(w.as_str());
            lit.append(esc.as_str());
            lit.append("'");
            assert(lit@ == cell_lit_of(rules, cells@[j as int]));
            let ghost pre = lits@;
            lits.push(lit);
            proof {
                crate::text::lemma_str_views_last(lits@);
                assert(lits@.drop_last() =~= pre);
                assert(str_views(lits@) == str_views(pre).push(lits@.last()@));
                lemma_take_succ(cells@, j as int);
                assert(str_views(lits@) =~= row_lits_of(rules, cells@.take(j + 1)));
            }
            j = j + 1;
        }
        proof {
            assert(cells@.take(cells@.len() as int) =~= cells@);
        }
        let mut tup = String::from_str("(");
        let inner = join_strings(&lits, ", ");
        tup.append(inner.as_str());
        tup.append(")");
        assert(tup@ == tuple_of(rules, rows@[i as int]));
        let ghost pre = tuples@;
        tuples.push(tup);
        proof {
            crate::text::lemma_str_views_last(tuples@);
            assert(tuples@.drop_last() =~= pre);
            assert(str_views(tuples@) == str_views(pre).push(tuples@.last()@));
            lemma_take_succ(rows@, i as int);
            assert(str_views(tuples@) =~= tuples_of(rules, rows@.take(i + 1)));
        }
        i = i + 1;
    }
    proof {
        assert(rows@.take(rows@.len() as int) =~= rows@);
    }
    Ok(join_strings(&tuples, ", "))
}

/// The finished `SELECT` statement for the source table, or the mapping
/// error of its projection.
pub fn build_select_query(
    table: &StringPair,
    cols: &Vec<StringPair>,
    static_cols: &Option<Vec<(String, String)>>,
    updates: &Option<Vec<(String, String, String, String)>>,
) -> (r: Result<String, TransferError>)
    ensures
        (r is Ok) <==> cols_ok(cols@),
        r matches Err(e) ==> e == TransferError::MalformedMapping,
        r matches Ok(s) ==> s@ == "SELECT "@ + join_with(
            projection_of(table.source@, cols@, statics_seq(*static_cols), rules_seq(*updates)),
            ", "@,
        ) + " FROM "@ + table.source@ + " "@ + join_with(joins_of(table.source@, cols@), " "@),
{
    let parts = match build_source_cols_and_joins(table, cols, static_cols, updates) {
        Ok(p) => p,
        Err(e) => {
            return Err(e);
        },
    };
    let mut q = String::from_str("SELECT ");
    q.append(parts.0.as_str());
    q.append(" FROM ");
    q.append(table.source.as_str());
    q.append(" ");
    q.append(parts.1.as_str());
    Ok(q)
}

/// The finished `INSERT` statement for the destination table; fails, and so
/// inserts nothing, as soon as one cell cannot be coerced.
pub fn build_insert_query(
    table: &StringPair,
    cols: &Vec<StringPair>,
    static_cols: &Option<Vec<(String, String)>>,
    updates: &Option<Vec<(String, String, String, String)>>,
    rows: &Vec<FetchedRow>,
) -> (r: Result<String, TransferError>)
    ensures
        (r is Ok) <==> rows_ok(rows@),
        r matches Ok(s) ==> s@ == "INSERT INTO "@ + table.dest@ + " ("@ + join_with(
            dest_cols_of(cols@, statics_seq(*static_cols), rules_seq(*updates)),
            ", "@,
        ) + ") VALUES "@ + values_text(rules_seq(*updates), rows@),
        r matches Err(e) ==> exists|i: int, j: int|
            0 <= i < rows@.len() && 0 <= j < rows@[i].cells@.len() && coerced_text(
                rows@[i].cells@[j].value,
            ) is None && e == (TransferError::CoercionFailure {
                column: rows@[i].cells@[j].name,
            }),
{
    let dest = build_dest_cols(cols, static_cols, updates);
    let values = match build_values_clause(rows, updates) {
        Ok(v) => v,
        Err(e) => {
            return Err(e);
        },
    };
    let mut q = String::from_str("INSERT INTO ");
    q.append(table.dest.as_str());
    q.append(" (");
    q.append(dest.as_str());
    q.append(") VALUES ");
    q.append(values.as_str());
    Ok(q)
}

/// For simple column mappings, those without a `/`, the projection keeps the
/// mapping order, each entry is exactly `sourceTable.column`, no join is
/// emitted, and with no static columns or update rules the projection holds
/// nothing else.
pub proof fn lemma_simple_mappings_projection(tsrc: Seq<char>, cols: Seq<StringPair>)
    requires
        forall|k: int| 0 <= k < cols.len() ==> !is_cross(cols[k].source@),
    ensures
        from_cols_of(tsrc, cols).len() == cols.len(),
        forall|k: int|
            0 <= k < cols.len() ==> from_cols_of(tsrc, cols)[k] == tsrc + "."@ + cols[k].source@,
        joins_of(tsrc, cols) == Seq::<Seq<char>>::empty(),
        projection_of(tsrc, cols, Seq::empty(), Seq::empty()) == from_cols_of(tsrc, cols),
    decreases cols.len(),
{
    if cols.len() > 0 {
        assert(forall|k: int|
            0 <= k < cols.drop_last().len() ==> !is_cross(cols.drop_last()[k].source@));
        lemma_simple_mappings_projection(tsrc, cols.drop_last());
        assert(!is_cross(cols.last().source@));
    }
    assert(update_srcs_of(Seq::empty()).len() == 0);
    assert(static_projs_of(Seq::empty()).len() == 0);
    assert(projection_of(tsrc, cols, Seq::empty(), Seq::empty()) =~= from_cols_of(tsrc, cols));
}

/// The destination column list never repeats a name, holds exactly the
/// names of the raw list — mapped destinations, then static columns, then
/// update destinations — and lists each name at its first occurrence, in
/// the order of those first occurrences.
pub proof fn lemma_dest_cols_first_occurrence(
    cols: Seq<StringPair>,
    statics: Seq<(String, String)>,
    rules: Seq<(String, String, String, String)>,
)
    ensures
        no_dups(dest_cols_of(cols, statics, rules)),
        forall|x: Seq<char>|
            dest_cols_of(cols, statics, rules).contains(x) <==> (dest_names_of(cols)
                + static_names_of(statics) + update_dests_of(rules)).contains(x),
        forall|i: int|
            0 <= i < dest_cols_of(cols, statics, rules).len() ==> first_occ(
                dest_names_of(cols) + static_names_of(statics) + update_dests_of(rules),
                #[trigger] dest_cols_of(cols, statics, rules)[i],
            ) < (dest_names_of(cols) + static_names_of(statics) + update_dests_of(rules)).len()
                && (dest_names_of(cols) + static_names_of(statics) + update_dests_of(
                rules,
            ))[first_occ(
                dest_names_of(cols) + static_names_of(statics) + update_dests_of(rules),
                dest_cols_of(cols, statics, rules)[i],
            )] == dest_cols_of(cols, statics, rules)[i],
        forall|i: int, j: int|
            0 <= i < j < dest_cols_of(cols, statics, rules).len() ==> first_occ(
                dest_names_of(cols) + static_names_of(statics) + update_dests_of(rules),
                dest_cols_of(cols, statics, rules)[i],
            ) < first_occ(
                dest_names_of(cols) + static_names_of(statics) + update_dests_of(rules),
                dest_cols_of(cols, statics, rules)[j],
            ),
{
    let raw = dest_names_of(cols) + static_names_of(statics) + update_dests_of(rules);
    lemma_append_missing_props(Seq::empty(), raw);
    assert(forall|x: Seq<char>| !Seq::<Seq<char>>::empty().contains(x));
    crate::text::lemma_append_missing_order(raw);
}

} // verus!
