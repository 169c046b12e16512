//! Textual rendering of runtime values, as used by the `print` output and
//! the `str` cast: integers as bare decimal digits, strings bare at top
//! level but quoted inside composites, arrays as `[a, b]`, dictionaries as
//! `{"k": v}` in entry order, booleans as `true`/`false`.

use vstd::prelude::*;
use vstd::seq::axiom_seq_index_decreases;
use vstd::seq::axiom_seq_subrange_decreases;

use crate::text::dec_digits;
use crate::text::i64_to_string;
use crate::text::int_text;
use crate::value::Value;
use crate::value::ValueModel;
use crate::value::lemma_entry_models;
use crate::value::lemma_seq_models;

verus! {

/// The display text of an abstract value.
pub open spec fn render(v: ValueModel) -> Seq<char>
    decreases v, 2int,
{
    match v {
        ValueModel::Int(i) => int_text(i),
        ValueModel::Text(s) => s,
        ValueModel::Bool(b) => if b { "true"@ } else { "false"@ },
        ValueModel::Arr(vs) => "["@ + rendered_items(vs) + "]"@,
        ValueModel::Dict(es) => "{"@ + rendered_entries(es) + "}"@,
        ValueModel::Undef => "undefined"@,
    }
}

/// The display text of a value as an element of a composite: like
/// [`render`], except that strings are surrounded by double quotes.
pub open spec fn render_quoted(v: ValueModel) -> Seq<char>
    decreases v, 3int,
{
    match v {
        ValueModel::Text(s) => "\""@ + s + "\""@,
        _ => render(v),
    }
}

/// The comma-separated display texts of a sequence of element values.
pub open spec fn rendered_items(vs: Seq<ValueModel>) -> Seq<char>
    decreases vs, 0int,
{
    if vs.len() == 0 {
        Seq::empty()
    } else if vs.len() == 1 {
        proof {
            axiom_seq_index_decreases::<ValueModel>(vs, 0);
        }
        render_quoted(vs[0])
    } else {
        proof {
            axiom_seq_subrange_decreases::<ValueModel>(vs, 0, vs.len() - 1);
            axiom_seq_index_decreases::<ValueModel>(vs, vs.len() - 1);
        }
        rendered_items(vs.drop_last()) + ", "@ + render_quoted(vs.last())
    }
}

/// The comma-separated display texts of a dictionary's entries, each as a
/// quoted key, a colon, and the entry's value.
pub open spec fn rendered_entries(es: Seq<(Seq<char>, ValueModel)>) -> Seq<char>
    decreases es, 0int,
{
    if es.len() == 0 {
        Seq::empty()
    } else if es.len() == 1 {
        proof {
            axiom_seq_index_decreases::<(Seq<char>, ValueModel)>(es, 0);
            assert(decreases_to!(es[0] => es[0].1));
        }
        rendered_entry(es[0].0, es[0].1)
    } else {
        proof {
            axiom_seq_subrange_decreases::<(Seq<char>, ValueModel)>(es, 0, es.len() - 1);
            axiom_seq_index_decreases::<(Seq<char>, ValueModel)>(es, es.len() - 1);
            assert(decreases_to!(es.last() => es.last().1));
        }
        rendered_entries(es.drop_last()) + ", "@ + rendered_entry(es.last().0, es.last().1)
    }
}

/// The display text of one dictionary entry.
pub open spec fn rendered_entry(k: Seq<char>, v: ValueModel) -> Seq<char>
    decreases v, 4int,
{
    "\""@ + k + "\": "@ + render_quoted(v)
}

/// Renders a value as display text, realising [`render`].
#[verifier::loop_isolation(false)]
pub fn render_value(v: &Value) -> (r: String)
    ensures
        r@ == render(v.model()),
    decreases v, 2int,
{
    match v {
        Value::Integer(i) => i64_to_string(*i),
        Value::Str(s) => s.clone(),
        Value::Boolean(b) => {
            if *b {
                String::from_str("true")
            } else {
                String::from_str("false")
            }
        },
        Value::Array(vs) => {
            proof {
                lemma_seq_models(vs@);
            }
            let ghost ms = crate::value::seq_models(vs@);
            let mut acc = String::from_str("[");
            let mut i: usize = 0;
            while i < vs.len()
                invariant
                    i <= vs@.len(),
                    acc@ == "["@ + rendered_items(ms.take(i as int)),
                decreases vs@.len() - i,
            {
                proof {
                    assert(decreases_to!(v => vs));
                    assert(decreases_to!(vs => vs@));
                    assert(decreases_to!(vs@ => vs@[i as int]));
                }
                if i > 0 {
                    acc.append(", ");
                }
                let piece = render_value_quoted(&vs[i]);
                acc.append(piece.as_str());
                proof {
                    assert(ms.take(i + 1).drop_last() =~= ms.take(i as int));
                    assert(ms.take(i + 1).last() == ms[i as int]);
                    assert(ms[i as int] == vs@[i as int].model());
                    if i == 0 {
                        assert(acc@ =~= "["@ + rendered_items(ms.take(1)));
                    } else {
                        assert(acc@ =~= "["@ + (rendered_items(ms.take(i as int)) + ", "@
                            + render_quoted(ms[i as int])));
                        assert(rendered_items(ms.take(i + 1)) == rendered_items(ms.take(i as int))
                            + ", "@ + render_quoted(ms[i as int]));
                    }
                }
                i += 1;
            }
            acc.append("]");
            proof {
                assert(ms.take(vs@.len() as int) =~= ms);
                assert(acc@ =~= "["@ + rendered_items(ms) + "]"@);
            }
            acc
        },
        Value::Dict(es) => {
            proof {
                lemma_entry_models(es@);
            }
            let ghost ms = crate::value::entry_models(es@);
            let mut acc = String::from_str("{");
            let mut i: usize = 0;
            while i < es.len()
                invariant
                    i <= es@.len(),
                    acc@ == "{"@ + rendered_entries(ms.take(i as int)),
                decreases es@.len() - i,
            {
                proof {
                    assert(decreases_to!(v => es));
                    assert(decreases_to!(es => es@));
                    assert(decreases_to!(es@ => es@[i as int]));
                    assert(decreases_to!(es@[i as int] => es@[i as int].1));
                }
                if i > 0 {
                    acc.append(", ");
                }
                acc.append("\"");
                acc.append(es[i].0.as_str());
                acc.append("\": ");
                let piece = render_value_quoted(&es[i].1);
                acc.append(piece.as_str());
                proof {
                    assert(ms.take(i + 1).drop_last() =~= ms.take(i as int));
                    assert(ms.take(i + 1).last() == ms[i as int]);
                    assert(ms[i as int] == (es@[i as int].0@, es@[i as int].1.model()));
                    if i == 0 {
                        assert(acc@ =~= "{"@ + rendered_entries(ms.take(1)));
                    } else {
                        assert(acc@ =~= "{"@ + (rendered_entries(ms.take(i as int)) + ", "@
                            + rendered_entry(ms[i as int].0, ms[i as int].1)));
                        assert(rendered_entries(ms.take(i + 1))
                            == rendered_entries(ms.take(i as int)) + ", "@
                            + rendered_entry(ms[i as int].0, ms[i as int].1));
                    }
                }
                i += 1;
            }
            acc.append("}");
            proof {
                assert(ms.take(es@.len() as int) =~= ms);
                assert(acc@ =~= "{"@ + rendered_entries(ms) + "}"@);
            }
            acc
        },
        Value::Undefined => String::from_str("undefined"),
    }
}

/// Renders a value as it appears inside a composite, realising
/// [`render_quoted`].
pub fn render_value_quoted(v: &Value) -> (r: String)
    ensures
        r@ == render_quoted(v.model()),
    decreases v, 3int,
{
    match v {
        Value::Str(s) => {
            let mut acc = String::from_str("\"");
            acc.append(s.as_str());
            acc.append("\"");
            proof {
                assert(acc@ =~= "\""@ + s@ + "\""@);
            }
            acc
        },
        _ => render_value(v),
    }
}

} // verus!
