//! What a notebook is turned into: itself without outputs, or a Python script.

use vstd::prelude::*;
use vstd::utf8::*;

use crate::json;
use crate::json::{Json, JsonObject, JsonTree, MAX_DEPTH};
use crate::text;

verus! {

/// Why a notebook could not be transformed.
#[derive(Debug)]
pub enum TransformError {
    /// The file is not JSON.
    InvalidData(serde_json::Error),
    /// The file is JSON, but neither an object nor null.
    NotAnObject,
}

/// The field `key` of an object, and null for a field or an object that is not there.
pub open spec fn at(t: JsonTree, key: Seq<char>) -> JsonTree {
    match t {
        JsonTree::Object(fields) => if fields.contains_key(key) {
            fields[key]
        } else {
            JsonTree::Null
        },
        _ => JsonTree::Null,
    }
}

/// The cell holds code.
pub open spec fn is_code_cell(cell: JsonTree) -> bool {
    at(cell, "cell_type"@) == JsonTree::Text("code"@)
}

/// The cell without its outputs and execution count, if it holds code.
pub open spec fn stripped_cell(cell: JsonTree) -> JsonTree {
    if is_code_cell(cell) {
        JsonTree::Object(
            cell->Object_0.insert("outputs"@, JsonTree::Array(seq![])).insert(
                "execution_count"@,
                JsonTree::Null,
            ),
        )
    } else {
        cell
    }
}

/// The cells, each without its outputs and execution count.
pub open spec fn stripped_cells(cells: JsonTree) -> JsonTree {
    match cells {
        JsonTree::Array(items) => JsonTree::Array(
            items.map_values(|cell: JsonTree| stripped_cell(cell)),
        ),
        _ => cells,
    }
}

/// The notebook without outputs and execution counts. What has no fields is no notebook, but
/// for null, which counts as an object without fields. The notebook gets a field for its cells
/// if it has none.
pub open spec fn stripped(notebook: JsonTree) -> Option<JsonTree> {
    match notebook {
        JsonTree::Object(fields) => Some(
            JsonTree::Object(fields.insert("cells"@, stripped_cells(at(notebook, "cells"@)))),
        ),
        JsonTree::Null => Some(JsonTree::Object(map!["cells"@ => JsonTree::Null])),
        _ => None,
    }
}

/// The text of the notebook in `raw` without outputs and execution counts; `None` for what is no
/// notebook.
pub open spec fn stripped_text(raw: Seq<u8>) -> Option<Seq<u8>> {
    match json::parsed_json(raw) {
        Some(notebook) => match stripped(notebook) {
            Some(s) => Some(json::written_json(s)),
            None => None,
        },
        None => None,
    }
}

/// Removes the outputs and the execution count of a cell that holds code.
fn strip_cell(cell: Json) -> (r: Json)
    ensures
        r.tree() == stripped_cell(cell.tree()),
{
    match cell {
        Json::Object(fields) => {
            let code: bool = match fields.get(&"cell_type".to_owned()) {
                Some(Json::Text(kind)) => *kind == "code".to_owned(),
                _ => false,
            };
            if code {
                let empty: Vec<Json> = Vec::new();
                let outputs = Json::Array(empty);
                assert(outputs.tree()->Array_0 =~= Seq::<JsonTree>::empty());
                Json::Object(
                    fields.insert("outputs".to_owned(), outputs).insert(
                        "execution_count".to_owned(),
                        Json::Null,
                    ),
                )
            } else {
                Json::Object(fields)
            }
        },
        other => other,
    }
}

/// Removes outputs and execution counts from a notebook; `None` for what is no notebook.
pub fn strip_notebook(notebook: Json) -> (r: Option<Json>)
    ensures
        match r {
            Some(j) => stripped(notebook.tree()) == Some(j.tree()),
            None => stripped(notebook.tree()) is None,
        },
{
    let fields = match notebook {
        Json::Object(fields) => fields,
        Json::Null => {
            let o = JsonObject::new().insert("cells".to_owned(), Json::Null);
            assert(o.trees() =~= map!["cells"@ => JsonTree::Null]);
            return Some(Json::Object(o));
        },
        _ => {
            return None;
        },
    };
    let ghost before = fields.trees();
    let (rest, cells) = fields.remove(&"cells".to_owned());
    let new_cells = match cells {
        Some(Json::Array(items)) => {
            let ghost all = items@;
            let mut out: Vec<Json> = Vec::new();
            for item in it: items
                invariant
                    it.seq() == all,
                    out@.len() == it.index(),
                    forall|i: int|
                        0 <= i < out@.len() ==> (#[trigger] out@[i]).tree() == stripped_cell(
                            all[i].tree(),
                        ),
            {
                out.push(strip_cell(item));
            }
            let new_cells = Json::Array(out);
            assert(new_cells.tree()->Array_0 =~= Json::Array(items).tree()->Array_0.map_values(
                |cell: JsonTree| stripped_cell(cell),
            ));
            new_cells
        },
        Some(other) => other,
        None => Json::Null,
    };
    let o = rest.insert("cells".to_owned(), new_cells);
    assert(o.trees() =~= before.insert("cells"@, new_cells.tree()));
    Some(Json::Object(o))
}

/// Stripping a notebook does not nest it deeper than the deepest that can be read.
proof fn lemma_stripped_fits(notebook: JsonTree, depth: nat)
    requires
        depth >= 4,
        json::fits(notebook, depth),
    ensures
        stripped(notebook) matches Some(s) ==> json::fits(s, depth),
{
    reveal_with_fuel(json::fits, 5);
    if notebook is Object {
        let cells = at(notebook, "cells"@);
        let d1 = (depth - 1) as nat;
        let d2 = (depth - 2) as nat;
        let d3 = (depth - 3) as nat;
        assert(json::fits(cells, d1));
        if cells is Array {
            let items = cells->Array_0;
            assert forall|i: int| 0 <= i < items.len() implies json::fits(
                #[trigger] stripped_cells(cells)->Array_0[i],
                d2,
            ) by {
                let cell = items[i];
                assert(json::fits(cell, d2));
                if is_code_cell(cell) {
                    let out = stripped_cell(cell)->Object_0;
                    assert forall|key: Seq<char>| #[trigger] out.contains_key(key) implies json::fits(
                        out[key],
                        d3,
                    ) by {
                        if key != "outputs"@ && key != "execution_count"@ {
                            assert(cell->Object_0.contains_key(key));
                        }
                    }
                }
            }
        }
        assert(json::fits(stripped_cells(cells), d1));
        let out = stripped(notebook)->Some_0->Object_0;
        assert forall|key: Seq<char>| #[trigger] out.contains_key(key) implies json::fits(
            out[key],
            d1,
        ) by {
            if key != "cells"@ {
                assert(notebook->Object_0.contains_key(key));
            }
        }
    }
}

/// No cell that holds code has outputs or an execution count.
pub open spec fn outputs_cleared(notebook: JsonTree) -> bool {
    at(notebook, "cells"@) matches JsonTree::Array(cells) ==> forall|i: int|
        0 <= i < cells.len() && is_code_cell(#[trigger] cells[i]) ==> at(cells[i], "outputs"@)
            == JsonTree::Array(seq![]) && at(cells[i], "execution_count"@) == JsonTree::Null
}

/// The names of the fields that the transformations read or write are distinct.
proof fn lemma_names_distinct()
    ensures
        "cells"@.len() == 5,
        "source"@.len() == 6,
        "outputs"@.len() == 7,
        "cell_type"@.len() == 9,
        "execution_count"@.len() == 15,
{
    reveal_strlit("cells");
    reveal_strlit("source");
    reveal_strlit("outputs");
    reveal_strlit("cell_type");
    reveal_strlit("execution_count");
}

/// A stripped notebook has no code cell with outputs or an execution count.
pub proof fn law_strip_clears_outputs(notebook: JsonTree)
    ensures
        stripped(notebook) matches Some(s) ==> outputs_cleared(s),
{
    lemma_names_distinct();
}

/// Documents that differ in the values of floating-point numbers alone do not differ in whether
/// their outputs are cleared.
proof fn lemma_alike_cleared(s: JsonTree, t: JsonTree)
    requires
        json::alike(s, t),
        outputs_cleared(s),
    ensures
        outputs_cleared(t),
{
    reveal_with_fuel(json::alike, 5);
    if at(t, "cells"@) is Array {
        let cells = at(t, "cells"@)->Array_0;
        assert(s is Object && s->Object_0.contains_key("cells"@));
        let from = at(s, "cells"@)->Array_0;
        assert forall|i: int| 0 <= i < cells.len() && is_code_cell(#[trigger] cells[i]) implies at(
            cells[i],
            "outputs"@,
        ) == JsonTree::Array(seq![]) && at(cells[i], "execution_count"@) == JsonTree::Null by {
            assert(json::alike(from[i], cells[i]));
            assert(from[i]->Object_0.contains_key("cell_type"@));
            assert(is_code_cell(from[i]));
            assert(from[i]->Object_0.contains_key("outputs"@));
            assert(at(cells[i], "outputs"@)->Array_0 =~= seq![]);
            assert(at(from[i], "execution_count"@) is Null);
        }
    }
}

/// Stripping touches nothing but the outputs and execution counts of code cells: the other
/// fields of the notebook, the number and order of the cells, the cells that hold no code, and
/// the other fields of those that do are as they were.
pub proof fn law_strip_keeps_the_rest(notebook: JsonTree)
    requires
        notebook is Object,
    ensures
        stripped(notebook) matches Some(s) && {
            &&& forall|key: Seq<char>| key != "cells"@ ==> #[trigger] at(s, key) == at(notebook, key)
            &&& at(notebook, "cells"@) !is Array ==> at(s, "cells"@) == at(notebook, "cells"@)
            &&& at(notebook, "cells"@) matches JsonTree::Array(from) ==> {
                &&& at(s, "cells"@) matches JsonTree::Array(cells)
                &&& cells.len() == from.len()
                &&& forall|i: int|
                    0 <= i < cells.len() && !is_code_cell(from[i]) ==> #[trigger] cells[i] == from[i]
                &&& forall|i: int, key: Seq<char>|
                    0 <= i < cells.len() && key != "outputs"@ && key != "execution_count"@
                        ==> #[trigger] at(cells[i], key) == at(from[i], key)
            }
        },
{
}

/// Stripping a stripped notebook changes nothing.
pub proof fn law_strip_is_idempotent(notebook: JsonTree)
    ensures
        stripped(notebook) matches Some(s) ==> stripped(s) == Some(s),
{
    lemma_names_distinct();
    if let Some(s) = stripped(notebook) {
        let cells = at(s, "cells"@);
        if cells is Array {
            assert forall|i: int| 0 <= i < cells->Array_0.len() implies stripped_cell(
                #[trigger] cells->Array_0[i],
            ) == cells->Array_0[i] by {
                let cell = cells->Array_0[i];
                if is_code_cell(cell) {
                    assert(stripped_cell(cell)->Object_0 =~= cell->Object_0);
                }
            }
            assert(stripped_cells(cells)->Array_0 =~= cells->Array_0);
        }
        assert(stripped(s)->Some_0->Object_0 =~= s->Object_0);
    }
}

/// The text of a notebook without outputs and execution counts.
///
/// The text is JSON. Read again, it gives the stripped notebook back, but for floating-point
/// numbers, which the reader may round to other values. What is read has its outputs cleared, and
/// has the script of the notebook that was stripped. Where no number is a floating-point number,
/// stripping the text again gives the same text.
pub fn strip_outputs(raw: &[u8]) -> (r: Result<Vec<u8>, TransformError>)
    ensures
        match r {
            Ok(bytes) => {
                &&& json::parsed_json(raw@) matches Some(t)
                &&& stripped(t) matches Some(s)
                &&& stripped_text(raw@) == Some(bytes@)
                &&& bytes@ == json::written_json(s)
                &&& json::parsed_json(bytes@) matches Some(again)
                &&& json::alike(s, again)
                &&& outputs_cleared(again)
                &&& script(again) == script(t)
                &&& json::float_free(s) ==> again == s && stripped_text(bytes@) == Some(bytes@)
            },
            Err(TransformError::InvalidData(_)) => json::parsed_json(raw@) is None,
            Err(TransformError::NotAnObject) => json::parsed_json(raw@) matches Some(t) && stripped(
                t,
            ) is None,
        },
{
    match Json::parse(raw) {
        Ok(notebook) => {
            proof {
                lemma_stripped_fits(notebook.tree(), MAX_DEPTH as nat);
            }
            match strip_notebook(notebook) {
                Some(result) => {
                    let bytes = result.write();
                    proof {
                        let again = json::parsed_json(bytes@)->Some_0;
                        law_strip_clears_outputs(notebook.tree());
                        lemma_alike_cleared(result.tree(), again);
                        law_strip_is_idempotent(notebook.tree());
                        law_script_ignores_outputs(notebook.tree());
                        law_script_ignores_float_values(result.tree(), again);
                    }
                    Ok(bytes)
                },
                None => Err(TransformError::NotAnObject),
            }
        },
        Err(e) => Err(TransformError::InvalidData(e)),
    }
}

/// The texts among `items`, in order.
pub open spec fn texts(items: Seq<JsonTree>) -> Seq<Seq<char>>
    decreases items.len(),
{
    if items.len() == 0 {
        seq![]
    } else {
        match items.last() {
            JsonTree::Text(s) => texts(items.drop_last()).push(s),
            _ => texts(items.drop_last()),
        }
    }
}

/// The lines of a cell's source, which is one text or a list of lines.
pub open spec fn source_lines(source: JsonTree) -> Option<Seq<Seq<char>>> {
    match source {
        JsonTree::Text(s) => Some(text::split_lines(s)),
        JsonTree::Array(items) => Some(texts(items)),
        _ => None,
    }
}

/// What a cell contributes to the script: prose as a docstring, code as it stands with a
/// comment behind it, and nothing for a cell of another kind or without a source.
pub open spec fn cell_script(cell: JsonTree) -> Seq<char> {
    match (source_lines(at(cell, "source"@)), at(cell, "cell_type"@)) {
        (Some(lines), JsonTree::Text(kind)) => if kind == "markdown"@ || kind == "raw"@ {
            "\"\"\"\n"@ + text::join_lines(lines) + "\"\"\"\n"@
        } else if kind == "code"@ {
            text::join_lines(lines) + "# ---\n"@
        } else {
            seq![]
        },
        _ => seq![],
    }
}

/// What the cells contribute to the script, one after the other.
pub open spec fn cells_script(cells: Seq<JsonTree>) -> Seq<char>
    decreases cells.len(),
{
    if cells.len() == 0 {
        seq![]
    } else {
        cells_script(cells.drop_last()) + cell_script(cells.last())
    }
}

/// The notebook as a Python script; empty for what has no list of cells.
pub open spec fn script(notebook: JsonTree) -> Seq<char> {
    match at(notebook, "cells"@) {
        JsonTree::Array(cells) => cells_script(cells),
        _ => seq![],
    }
}

/// The field `key` of an object.
fn field<'a>(j: &'a Json, key: &str) -> (r: Option<&'a Json>)
    ensures
        match r {
            Some(v) => at(j.tree(), key@) == v.tree(),
            None => at(j.tree(), key@) == JsonTree::Null,
        },
{
    match j {
        Json::Object(fields) => fields.get(&key.to_owned()),
        _ => None,
    }
}

/// Adds the lines of a cell's source to `out`; `false` if the cell has no source.
fn push_source(out: &mut Vec<u8>, source: &Json) -> (found: bool)
    ensures
        match source_lines(source.tree()) {
            Some(lines) => found && final(out)@ == old(out)@ + encode_utf8(
                text::join_lines(lines),
            ),
            None => !found && final(out)@ == old(out)@,
        },
{
    match source {
        Json::Text(s) => {
            text::push_ended(out, s.as_str());
            proof {
                text::lemma_join_split(s@);
            }
            true
        },
        Json::Array(items) => {
            let ghost all = source.tree()->Array_0;
            let mut i: usize = 0;
            proof {
                assert(all.take(0) =~= seq![]);
                assert(encode_utf8(text::join_lines(texts(all.take(0)))) =~= seq![]);
                assert(out@ =~= old(out)@ + encode_utf8(text::join_lines(texts(all.take(0)))));
            }
            while i < items.len()
                invariant
                    i <= items@.len(),
                    all.len() == items@.len(),
                    forall|k: int| 0 <= k < items@.len() ==> all[k] == (#[trigger] items@[k]).tree(),
                    out@ == old(out)@ + encode_utf8(text::join_lines(texts(all.take(i as int)))),
                decreases items@.len() - i,
            {
                let ghost before = text::join_lines(texts(all.take(i as int)));
                assert(all.take(i + 1).drop_last() =~= all.take(i as int));
                assert(all.take(i + 1).last() == items@[i as int].tree());
                if let Json::Text(line) = &items[i] {
                    text::push_line(out, line.as_str());
                    proof {
                        let ended = text::trim_newlines(line@) + seq!['\n'];
                        let lines = texts(all.take(i + 1));
                        assert(lines.drop_last() =~= texts(all.take(i as int)));
                        text::lemma_encode_concat(before, ended);
                        assert(text::join_lines(lines) =~= before + ended);
                        assert(out@ =~= old(out)@ + encode_utf8(text::join_lines(lines)));
                    }
                }
                i += 1;
            }
            assert(all.take(i as int) =~= all);
            true
        },
        _ => false,
    }
}

/// Adds what a cell contributes to the script to `out`.
fn push_cell(out: &mut Vec<u8>, cell: &Json)
    ensures
        final(out)@ == old(out)@ + encode_utf8(cell_script(cell.tree())),
{
    assert(encode_utf8(seq![]) =~= seq![]);
    assert(out@ + encode_utf8(seq![]) =~= out@);
    let kind: &String = match field(cell, "cell_type") {
        Some(Json::Text(kind)) => kind,
        _ => {
            return ;
        },
    };
    let source: &Json = match field(cell, "source") {
        Some(source) => source,
        None => {
            return ;
        },
    };
    if *kind == "markdown".to_owned() || *kind == "raw".to_owned() {
        let mut docstring: Vec<u8> = Vec::new();
        if push_source(&mut docstring, source) {
            text::push_text(out, "\"\"\"\n");
            out.append(&mut docstring);
            text::push_text(out, "\"\"\"\n");
            proof {
                let lines = text::join_lines(source_lines(source.tree())->Some_0);
                text::lemma_encode_concat("\"\"\"\n"@, lines);
                text::lemma_encode_concat("\"\"\"\n"@ + lines, "\"\"\"\n"@);
                assert(out@ =~= old(out)@ + encode_utf8(cell_script(cell.tree())));
            }
        }
    } else if *kind == "code".to_owned() {
        if push_source(out, source) {
            text::push_text(out, "# ---\n");
            proof {
                let lines = text::join_lines(source_lines(source.tree())->Some_0);
                text::lemma_encode_concat(lines, "# ---\n"@);
                assert(out@ =~= old(out)@ + encode_utf8(cell_script(cell.tree())));
            }
        }
    }
}

/// The bytes of the notebook's script.
pub fn python_script(notebook: &Json) -> (out: Vec<u8>)
    ensures
        out@ == encode_utf8(script(notebook.tree())),
{
    let mut out: Vec<u8> = Vec::new();
    assert(encode_utf8(seq![]) =~= seq![]);
    if let Some(Json::Array(items)) = field(notebook, "cells") {
        let ghost all = Json::Array(*items).tree()->Array_0;
        let mut i: usize = 0;
        assert(all.take(0) =~= seq![]);
        while i < items.len()
            invariant
                i <= items@.len(),
                all.len() == items@.len(),
                forall|k: int| 0 <= k < items@.len() ==> all[k] == (#[trigger] items@[k]).tree(),
                out@ == encode_utf8(cells_script(all.take(i as int))),
            decreases items@.len() - i,
        {
            push_cell(&mut out, &items[i]);
            proof {
                assert(all.take(i + 1).drop_last() =~= all.take(i as int));
                text::lemma_encode_concat(
                    cells_script(all.take(i as int)),
                    cell_script(all[i as int]),
                );
            }
            i += 1;
        }
        assert(all.take(i as int) =~= all);
    }
    out
}

/// The script of a notebook: its prose as docstrings and its code as it stands, in the order of
/// the cells.
pub fn to_python_script(raw: &[u8]) -> (r: Result<Vec<u8>, TransformError>)
    ensures
        match r {
            Ok(bytes) => json::parsed_json(raw@) matches Some(t) && bytes@ == encode_utf8(script(t)),
            Err(TransformError::InvalidData(_)) => json::parsed_json(raw@) is None,
            Err(TransformError::NotAnObject) => false,
        },
{
    match Json::parse(raw) {
        Ok(notebook) => Ok(python_script(&notebook)),
        Err(e) => Err(TransformError::InvalidData(e)),
    }
}

/// A script is UTF-8.
pub proof fn law_script_is_utf8(notebook: JsonTree)
    ensures
        valid_utf8(encode_utf8(script(notebook))),
{
    encode_utf8_valid_utf8(script(notebook));
}

/// The script of a notebook is the scripts of its first cells and of the others, one after the
/// other.
pub proof fn law_script_follows_cell_order(first: Seq<JsonTree>, others: Seq<JsonTree>)
    ensures
        cells_script(first + others) == cells_script(first) + cells_script(others),
    decreases others.len(),
{
    if others.len() == 0 {
        assert(first + others =~= first);
        assert(cells_script(first) + cells_script(others) =~= cells_script(first));
    } else {
        law_script_follows_cell_order(first, others.drop_last());
        assert((first + others).drop_last() =~= first + others.drop_last());
        assert(cells_script(first + others) =~= cells_script(first) + cells_script(others));
    }
}

/// Cells that contribute the same one by one have the same script.
proof fn lemma_same_cells_script(a: Seq<JsonTree>, b: Seq<JsonTree>)
    requires
        a.len() == b.len(),
        forall|i: int| 0 <= i < a.len() ==> cell_script(#[trigger] a[i]) == cell_script(b[i]),
    ensures
        cells_script(a) == cells_script(b),
    decreases a.len(),
{
    if a.len() > 0 {
        assert forall|i: int| 0 <= i < a.drop_last().len() implies cell_script(
            #[trigger] a.drop_last()[i],
        ) == cell_script(b.drop_last()[i]) by {
            assert(cell_script(a[i]) == cell_script(b[i]));
        }
        lemma_same_cells_script(a.drop_last(), b.drop_last());
        assert(cell_script(a[a.len() - 1]) == cell_script(b[a.len() - 1]));
    }
}

proof fn lemma_stripped_cell_script(cell: JsonTree)
    ensures
        cell_script(stripped_cell(cell)) == cell_script(cell),
{
    lemma_names_distinct();
    assert(at(stripped_cell(cell), "source"@) == at(cell, "source"@));
    assert(at(stripped_cell(cell), "cell_type"@) == at(cell, "cell_type"@));
}

/// Outputs and execution counts do not show in the script: a stripped notebook has the same one.
pub proof fn law_script_ignores_outputs(notebook: JsonTree)
    ensures
        stripped(notebook) matches Some(s) ==> script(s) == script(notebook),
{
    if let JsonTree::Array(cells) = at(notebook, "cells"@) {
        let out = cells.map_values(|cell: JsonTree| stripped_cell(cell));
        assert forall|i: int| 0 <= i < out.len() implies cell_script(#[trigger] out[i])
            == cell_script(cells[i]) by {
            lemma_stripped_cell_script(cells[i]);
        }
        lemma_same_cells_script(out, cells);
    }
}

/// Documents that are the same but for the values of floating-point numbers have fields that are.
proof fn lemma_alike_at(s: JsonTree, t: JsonTree, key: Seq<char>)
    requires
        json::alike(s, t),
    ensures
        json::alike(at(s, key), at(t, key)),
{
    reveal_with_fuel(json::alike, 2);
    if let (JsonTree::Object(a), JsonTree::Object(b)) = (s, t) {
        assert(a.contains_key(key) == a.dom().contains(key));
        assert(b.contains_key(key) == b.dom().contains(key));
    }
}

/// Lists that are the same but for the values of floating-point numbers have the same texts.
proof fn lemma_alike_texts(a: Seq<JsonTree>, b: Seq<JsonTree>)
    requires
        a.len() == b.len(),
        forall|i: int| 0 <= i < a.len() ==> json::alike(#[trigger] a[i], b[i]),
    ensures
        texts(a) == texts(b),
    decreases a.len(),
{
    if a.len() > 0 {
        assert forall|i: int| 0 <= i < a.drop_last().len() implies json::alike(
            #[trigger] a.drop_last()[i],
            b.drop_last()[i],
        ) by {
            assert(json::alike(a[i], b[i]));
        }
        lemma_alike_texts(a.drop_last(), b.drop_last());
        assert(json::alike(a[a.len() - 1], b[a.len() - 1]));
    }
}

/// Cells that are the same but for the values of floating-point numbers contribute the same.
proof fn lemma_alike_cell_script(s: JsonTree, t: JsonTree)
    requires
        json::alike(s, t),
    ensures
        cell_script(s) == cell_script(t),
{
    lemma_alike_at(s, t, "source"@);
    lemma_alike_at(s, t, "cell_type"@);
    if let (JsonTree::Array(a), JsonTree::Array(b)) = (at(s, "source"@), at(t, "source"@)) {
        lemma_alike_texts(a, b);
    }
}

/// The values of floating-point numbers do not show in the script: documents that are the same
/// but for those have the same one.
pub proof fn law_script_ignores_float_values(s: JsonTree, t: JsonTree)
    requires
        json::alike(s, t),
    ensures
        script(s) == script(t),
{
    lemma_alike_at(s, t, "cells"@);
    if let (JsonTree::Array(a), JsonTree::Array(b)) = (at(s, "cells"@), at(t, "cells"@)) {
        assert forall|i: int| 0 <= i < a.len() implies cell_script(#[trigger] a[i]) == cell_script(
            b[i],
        ) by {
            lemma_alike_cell_script(a[i], b[i]);
        }
        lemma_same_cells_script(a, b);
    }
}

/// The fields of a code cell but for its outputs and execution count.
pub open spec fn input_fields(cell: JsonTree) -> Map<Seq<char>, JsonTree> {
    cell->Object_0.remove("outputs"@).remove("execution_count"@)
}

/// The cells are the same, or hold code and are the same but for outputs and execution count.
pub open spec fn same_cell_input(a: JsonTree, b: JsonTree) -> bool {
    a == b || is_code_cell(a) && is_code_cell(b) && input_fields(a) == input_fields(b)
}

/// The notebooks are the same but for outputs and execution counts of code cells.
pub open spec fn same_input(a: JsonTree, b: JsonTree) -> bool {
    a == b || {
        &&& a matches JsonTree::Object(fields_a)
        &&& b matches JsonTree::Object(fields_b)
        &&& fields_a.remove("cells"@) == fields_b.remove("cells"@)
        &&& at(a, "cells"@) matches JsonTree::Array(cells_a)
        &&& at(b, "cells"@) matches JsonTree::Array(cells_b)
        &&& cells_a.len() == cells_b.len()
        &&& forall|i: int|
            0 <= i < cells_a.len() ==> same_cell_input(#[trigger] cells_a[i], cells_b[i])
    }
}

proof fn lemma_same_cell_input(a: JsonTree, b: JsonTree)
    requires
        same_cell_input(a, b),
    ensures
        stripped_cell(a) == stripped_cell(b),
{
    if a != b {
        let (x, y) = (stripped_cell(a)->Object_0, stripped_cell(b)->Object_0);
        assert forall|key: Seq<char>| #[trigger] x.contains_key(key) == y.contains_key(key) && (
        x.contains_key(key) ==> x[key] == y[key]) by {
            if key != "outputs"@ && key != "execution_count"@ {
                assert(input_fields(a).contains_key(key) == input_fields(b).contains_key(key));
                assert(input_fields(a)[key] == input_fields(b)[key]);
            }
        }
        assert(x =~= y);
    }
}

/// Notebooks that are the same but for outputs and execution counts of code cells are stripped to
/// the same notebook, and have the same script.
pub proof fn law_outputs_make_no_difference(a: JsonTree, b: JsonTree)
    requires
        same_input(a, b),
    ensures
        stripped(a) == stripped(b),
        script(a) == script(b),
{
    if a != b {
        let (cells_a, cells_b) = (at(a, "cells"@)->Array_0, at(b, "cells"@)->Array_0);
        let (x, y) = (stripped_cells(at(a, "cells"@)), stripped_cells(at(b, "cells"@)));
        assert forall|i: int| 0 <= i < cells_a.len() implies #[trigger] x->Array_0[i]
            == y->Array_0[i] by {
            assert(same_cell_input(cells_a[i], cells_b[i]));
            lemma_same_cell_input(cells_a[i], cells_b[i]);
        }
        assert(x->Array_0 =~= y->Array_0);
        let (p, q) = (a->Object_0.insert("cells"@, x), b->Object_0.insert("cells"@, y));
        assert(p =~= a->Object_0.remove("cells"@).insert("cells"@, x));
        assert(q =~= b->Object_0.remove("cells"@).insert("cells"@, y));
        law_script_ignores_outputs(a);
        law_script_ignores_outputs(b);
    }
}

/// The cell with `source` as its source.
pub open spec fn with_source(cell: JsonTree, source: JsonTree) -> JsonTree {
    JsonTree::Object(cell->Object_0.insert("source"@, source))
}

/// The lines of `s` as a list.
pub open spec fn lines_of(s: Seq<char>) -> JsonTree {
    JsonTree::Array(text::split_lines(s).map_values(|line: Seq<char>| JsonTree::Text(line)))
}

proof fn lemma_texts_of_lines(lines: Seq<Seq<char>>)
    ensures
        texts(lines.map_values(|line: Seq<char>| JsonTree::Text(line))) == lines,
    decreases lines.len(),
{
    let items = lines.map_values(|line: Seq<char>| JsonTree::Text(line));
    if lines.len() > 0 {
        lemma_texts_of_lines(lines.drop_last());
        assert(items.drop_last() =~= lines.drop_last().map_values(
            |line: Seq<char>| JsonTree::Text(line),
        ));
        assert(lines.drop_last().push(lines.last()) =~= lines);
    }
}

/// A source may be one text or the list of its lines: the script is the same.
pub proof fn law_source_as_text_or_lines(cells: Seq<JsonTree>, i: int, s: Seq<char>)
    requires
        0 <= i < cells.len(),
        cells[i] is Object,
    ensures
        cells_script(cells.update(i, with_source(cells[i], JsonTree::Text(s)))) == cells_script(
            cells.update(i, with_source(cells[i], lines_of(s))),
        ),
{
    lemma_names_distinct();
    lemma_texts_of_lines(text::split_lines(s));
    let (a, b) = (
        with_source(cells[i], JsonTree::Text(s)),
        with_source(cells[i], lines_of(s)),
    );
    assert(at(a, "cell_type"@) == at(b, "cell_type"@));
    assert(source_lines(at(a, "source"@)) == source_lines(at(b, "source"@)));
    lemma_same_cells_script(cells.update(i, a), cells.update(i, b));
}

/// A field that an object has is found under its name, and nothing else is found.
pub proof fn law_field(fields: Map<Seq<char>, JsonTree>, t: JsonTree, key: Seq<char>)
    ensures
        fields.contains_key(key) ==> at(JsonTree::Object(fields), key) == fields[key],
        !fields.contains_key(key) ==> at(JsonTree::Object(fields), key) == JsonTree::Null,
        t !is Object ==> at(t, key) == JsonTree::Null,
{
}

/// A cell that holds code, of whatever content, gets no outputs and a null execution count, and
/// keeps its other fields; any other cell stays as it is.
pub proof fn law_stripped_cell(cell: JsonTree)
    ensures
        ({
            let code = cell is Object && cell->Object_0.contains_key("cell_type"@)
                && cell->Object_0["cell_type"@] == JsonTree::Text("code"@);
            &&& !code ==> stripped_cell(cell) == cell
            &&& code ==> stripped_cell(cell) is Object && {
                let before = cell->Object_0;
                let fields = stripped_cell(cell)->Object_0;
                &&& fields.dom() == before.dom().insert("outputs"@).insert("execution_count"@)
                &&& fields["outputs"@] == JsonTree::Array(Seq::empty())
                &&& fields["execution_count"@] == JsonTree::Null
                &&& forall|key: Seq<char>|
                    key != "outputs"@ && key != "execution_count"@ && before.contains_key(key)
                        ==> #[trigger] fields[key] == before[key]
            }
        }),
{
    lemma_names_distinct();
    if is_code_cell(cell) {
        assert(stripped_cell(cell)->Object_0.dom() =~= cell->Object_0.dom().insert(
            "outputs"@,
        ).insert("execution_count"@));
    }
}

/// Every object can be stripped, whatever it holds and however large it is. It keeps its fields
/// but for the cells, which are stripped one by one and stay in their places; cells that are no
/// list stay as they are, and cells that are not there become null. So does null, which counts
/// as an object without fields. Nothing else can be stripped.
pub proof fn law_stripped_notebook(notebook: JsonTree)
    ensures
        stripped(notebook) is Some <==> notebook is Object || notebook is Null,
        notebook is Null ==> stripped(notebook) == Some(
            JsonTree::Object(Map::<Seq<char>, JsonTree>::empty().insert("cells"@, JsonTree::Null)),
        ),
        notebook is Object ==> stripped(notebook)->Some_0 is Object && {
            let before = notebook->Object_0;
            let fields = stripped(notebook)->Some_0->Object_0;
            &&& fields.dom() == before.dom().insert("cells"@)
            &&& forall|key: Seq<char>|
                key != "cells"@ && before.contains_key(key) ==> #[trigger] fields[key]
                    == before[key]
            &&& !before.contains_key("cells"@) ==> fields["cells"@] == JsonTree::Null
            &&& before.contains_key("cells"@) && before["cells"@] !is Array ==> fields["cells"@]
                == before["cells"@]
            &&& before.contains_key("cells"@) && before["cells"@] is Array ==> {
                let cells = before["cells"@]->Array_0;
                &&& fields["cells"@] is Array
                &&& fields["cells"@]->Array_0.len() == cells.len()
                &&& forall|i: int|
                    0 <= i < cells.len() ==> #[trigger] fields["cells"@]->Array_0[i]
                        == stripped_cell(cells[i])
            }
        },
{
    if notebook is Object {
        assert(stripped(notebook)->Some_0->Object_0.dom() =~= notebook->Object_0.dom().insert(
            "cells"@,
        ));
    }
}

/// The stripped text is there for every object and for null, of whatever size, and is what is
/// written for the stripped notebook; what is no JSON, or something else, has none.
pub proof fn law_stripped_text(raw: Seq<u8>)
    ensures
        match json::parsed_json(raw) {
            Some(t) => if t is Object || t is Null {
                stripped(t) is Some && stripped_text(raw) == Some(
                    json::written_json(stripped(t)->Some_0),
                )
            } else {
                stripped_text(raw) is None
            },
            None => stripped_text(raw) is None,
        },
{
}

/// Cleared outputs are an empty list in every cell that holds code, and its execution count is
/// null or not there.
pub proof fn law_outputs_cleared(fields: Map<Seq<char>, JsonTree>, i: int)
    requires
        outputs_cleared(JsonTree::Object(fields)),
        fields.contains_key("cells"@),
        fields["cells"@] is Array,
        0 <= i < fields["cells"@]->Array_0.len(),
    ensures
        ({
            let cell = fields["cells"@]->Array_0[i];
            cell is Object && cell->Object_0.contains_key("cell_type"@)
                && cell->Object_0["cell_type"@] == JsonTree::Text("code"@) ==> {
                &&& cell->Object_0.contains_key("outputs"@)
                &&& cell->Object_0["outputs"@] == JsonTree::Array(Seq::empty())
                &&& cell->Object_0.contains_key("execution_count"@)
                    ==> cell->Object_0["execution_count"@] == JsonTree::Null
            }
        }),
{
    let cell = fields["cells"@]->Array_0[i];
    assert(at(JsonTree::Object(fields), "cells"@)->Array_0[i] == cell);
    if is_code_cell(cell) {
        assert(at(cell, "outputs"@) == JsonTree::Array(seq![]));
    }
}

/// The texts of a list are its texts, all of them, in order, and what is no text is left out.
pub proof fn law_texts(a: Seq<JsonTree>, b: Seq<JsonTree>, s: Seq<char>, other: JsonTree)
    ensures
        texts(seq![]) == Seq::<Seq<char>>::empty(),
        texts(seq![JsonTree::Text(s)]) == seq![s],
        other !is Text ==> texts(seq![other]) == Seq::<Seq<char>>::empty(),
        texts(a + b) == texts(a) + texts(b),
    decreases b.len(),
{
    reveal_with_fuel(texts, 2);
    assert(seq![JsonTree::Text(s)].drop_last() =~= seq![]);
    assert(seq![other].drop_last() =~= seq![]);
    assert(texts(seq![JsonTree::Text(s)]) =~= seq![s]);
    if b.len() == 0 {
        assert(a + b =~= a);
        assert(texts(a) + texts(b) =~= texts(a));
    } else {
        law_texts(a, b.drop_last(), s, other);
        assert((a + b).drop_last() =~= a + b.drop_last());
        assert(texts(a + b) =~= texts(a) + texts(b));
    }
}

/// What the source of a cell comes to, whatever it says: a text is taken over with its last line
/// ended, and of a list every text is taken over as a line of its own.
pub open spec fn source_text(source: JsonTree) -> Seq<char> {
    match source {
        JsonTree::Text(s) => if s.len() == 0 || s.last() == '\n' {
            s
        } else {
            s.push('\n')
        },
        JsonTree::Array(items) => text::join_lines(texts(items)),
        _ => seq![],
    }
}

/// A cell that holds code contributes its source and the fixed comment, whatever the source says,
/// and a cell that holds prose its source between quotes. A cell of another kind, of none, or
/// without a source contributes nothing, and so does what is no cell.
pub proof fn law_cell_script(fields: Map<Seq<char>, JsonTree>, t: JsonTree)
    ensures
        ({
            let has_source = fields.contains_key("source"@) && (fields["source"@] is Text
                || fields["source"@] is Array);
            let content = source_text(fields["source"@]);
            let quotes = seq!['"', '"', '"', '\n'];
            let kind = fields["cell_type"@];
            let script = cell_script(JsonTree::Object(fields));
            &&& has_source && fields.contains_key("cell_type"@) && kind == JsonTree::Text("code"@)
                ==> script == content + seq!['#', ' ', '-', '-', '-', '\n']
            &&& has_source && fields.contains_key("cell_type"@) && (kind == JsonTree::Text(
                "markdown"@,
            ) || kind == JsonTree::Text("raw"@)) ==> script == quotes + content + quotes
            &&& !has_source || !fields.contains_key("cell_type"@) || !(kind == JsonTree::Text(
                "code"@,
            ) || kind == JsonTree::Text("markdown"@) || kind == JsonTree::Text("raw"@)) ==> script
                == Seq::<char>::empty()
        }),
        t !is Object ==> cell_script(t) == Seq::<char>::empty(),
{
    reveal_strlit("code");
    reveal_strlit("markdown");
    reveal_strlit("raw");
    reveal_strlit("# ---\n");
    reveal_strlit("\"\"\"\n");
    assert("# ---\n"@ =~= seq!['#', ' ', '-', '-', '-', '\n']);
    assert("\"\"\"\n"@ =~= seq!['"', '"', '"', '\n']);
    assert("code"@[0] == 'c' && "markdown"@[0] == 'm' && "raw"@[0] == 'r');
    if let JsonTree::Text(s) = fields["source"@] {
        text::lemma_join_split(s);
    }
}

/// The script of one cell is what the cell contributes, that of no cells is empty, and that of a
/// document is the script of its cells, if it has a list of them.
pub proof fn law_script_of_cells(fields: Map<Seq<char>, JsonTree>, cell: JsonTree, t: JsonTree)
    ensures
        cells_script(seq![]) == Seq::<char>::empty(),
        cells_script(seq![cell]) == cell_script(cell),
        fields.contains_key("cells"@) && fields["cells"@] is Array ==> script(
            JsonTree::Object(fields),
        ) == cells_script(fields["cells"@]->Array_0),
        !(fields.contains_key("cells"@) && fields["cells"@] is Array) ==> script(
            JsonTree::Object(fields),
        ) == Seq::<char>::empty(),
        t !is Object ==> script(t) == Seq::<char>::empty(),
{
    reveal_with_fuel(cells_script, 2);
    assert(seq![cell].drop_last() =~= seq![]);
    assert(cells_script(seq![cell]) =~= cell_script(cell));
}

/// Every cell of a notebook is in the script, between what the cells before it and those behind
/// it contribute: no cell is left out and none changes places.
pub proof fn law_every_cell_is_in_the_script(fields: Map<Seq<char>, JsonTree>, i: int)
    requires
        fields.contains_key("cells"@),
        fields["cells"@] is Array,
        0 <= i < fields["cells"@]->Array_0.len(),
    ensures
        ({
            let cells = fields["cells"@]->Array_0;
            script(JsonTree::Object(fields)) == cells_script(cells.take(i)) + cell_script(cells[i])
                + cells_script(cells.skip(i + 1))
        }),
{
    let cells = fields["cells"@]->Array_0;
    let cell = cells[i];
    law_script_of_cells(fields, cell, cell);
    law_script_follows_cell_order(cells.take(i) + seq![cell], cells.skip(i + 1));
    law_script_follows_cell_order(cells.take(i), seq![cell]);
    assert(cells.take(i) + seq![cell] + cells.skip(i + 1) =~= cells);
}

/// The bytes of the script hold the source of every cell that holds code or prose, whatever the
/// source says: they are those of the cells before it, of its source with the comment behind it
/// or between quotes, and of the cells behind it. So the script is never shorter than the source.
pub proof fn law_script_bytes_hold_every_source(fields: Map<Seq<char>, JsonTree>, i: int)
    requires
        fields.contains_key("cells"@),
        fields["cells"@] is Array,
        0 <= i < fields["cells"@]->Array_0.len(),
        fields["cells"@]->Array_0[i] is Object,
        fields["cells"@]->Array_0[i]->Object_0.contains_key("source"@),
        fields["cells"@]->Array_0[i]->Object_0.contains_key("cell_type"@),
    ensures
        ({
            let cells = fields["cells"@]->Array_0;
            let source = cells[i]->Object_0["source"@];
            let kind = cells[i]->Object_0["cell_type"@];
            let bytes = encode_utf8(script(JsonTree::Object(fields)));
            let before = encode_utf8(cells_script(cells.take(i)));
            let behind = encode_utf8(cells_script(cells.skip(i + 1)));
            let content = encode_utf8(source_text(source));
            let quotes = encode_utf8(seq!['"', '"', '"', '\n']);
            let comment = encode_utf8(seq!['#', ' ', '-', '-', '-', '\n']);
            source is Text || source is Array ==> {
                &&& kind == JsonTree::Text("code"@) ==> bytes == before + content + comment
                    + behind && bytes.len() >= content.len()
                &&& kind == JsonTree::Text("markdown"@) || kind == JsonTree::Text("raw"@) ==> bytes
                    == before + quotes + content + quotes + behind && bytes.len() >= content.len()
                &&& source matches JsonTree::Text(s) ==> content.len() >= encode_utf8(s).len()
            }
        }),
{
    let cells = fields["cells"@]->Array_0;
    let cell = cells[i];
    let source = cell->Object_0["source"@];
    let kind = cell->Object_0["cell_type"@];
    let before = cells_script(cells.take(i));
    let behind = cells_script(cells.skip(i + 1));
    let content = source_text(source);
    let quotes = seq!['"', '"', '"', '\n'];
    let comment = seq!['#', ' ', '-', '-', '-', '\n'];
    law_every_cell_is_in_the_script(fields, i);
    law_cell_script(cell->Object_0, cell);
    text::lemma_encode_concat(before, cell_script(cell));
    text::lemma_encode_concat(before + cell_script(cell), behind);
    text::lemma_encode_concat(content, comment);
    text::lemma_encode_concat(quotes, content);
    text::lemma_encode_concat(quotes + content, quotes);
    if let JsonTree::Text(s) = source {
        text::lemma_encode_concat(s, seq!['\n']);
        assert(s + seq!['\n'] =~= s.push('\n'));
    }
    if source is Text || source is Array {
        let bytes = encode_utf8(script(JsonTree::Object(fields)));
        if kind == JsonTree::Text("code"@) {
            assert(bytes =~= encode_utf8(before) + encode_utf8(content) + encode_utf8(comment)
                + encode_utf8(behind));
        }
        if kind == JsonTree::Text("markdown"@) || kind == JsonTree::Text("raw"@) {
            assert(bytes =~= encode_utf8(before) + encode_utf8(quotes) + encode_utf8(content)
                + encode_utf8(quotes) + encode_utf8(behind));
        }
    }
}

/// The lines of a source, whatever it says, are in the script one by one: the source comes to each
/// of its lines without the newlines at its end and with one newline behind it, in order.
pub proof fn law_source_is_its_lines(source: JsonTree)
    ensures
        source matches JsonTree::Text(s) ==> source_text(source) == text::join_lines(
            text::split_lines(s),
        ) && source_lines(source) == Some(text::split_lines(s)),
        source matches JsonTree::Array(items) ==> source_text(source) == text::join_lines(
            texts(items),
        ) && source_lines(source) == Some(texts(items)),
        !(source is Text || source is Array) ==> source_lines(source) is None,
{
    if let JsonTree::Text(s) = source {
        text::lemma_join_split(s);
    }
}

} // verus!
