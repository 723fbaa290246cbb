use crate::binding::{ExtractorBinding, ExtractorFilter};
use crate::numerals::{decimal, to_decimal};
use crate::selection::optional_text;
use vstd::prelude::*;
use vstd::string::StringExecFns;

verus! {

/// A statement for a relational store: its text, with a placeholder `$n` for
/// the n-th value, and the values.
#[derive(Debug)]
pub struct Statement {
    pub text: String,
    pub values: Vec<String>,
}

/// The texts of a list of strings.
pub open spec fn values_of(values: Seq<String>) -> Seq<Seq<char>> {
    values.map_values(|s: String| s@)
}

/// The placeholder for the n-th value.
pub open spec fn placeholder(n: nat) -> Seq<char> {
    "$"@ + decimal(n)
}

/// The number of values that the filters bring: two for each filter that
/// compares with a string.
pub open spec fn values_brought(filters: Seq<ExtractorFilter>) -> nat
    decreases filters.len(),
{
    if filters.len() == 0 {
        0
    } else {
        values_brought(filters.drop_last()) + if filters.last().is_well_formed() {
            2nat
        } else {
            0nat
        }
    }
}

/// The condition that stands for a filter whose values are the n-th and the
/// one after it. A filter that compares with no string selects nothing.
pub open spec fn filter_condition(filter: ExtractorFilter, n: nat) -> Seq<char> {
    if filter.is_well_formed() {
        " and metadata->>"@ + placeholder(n) + (match filter {
            ExtractorFilter::Eq { field, value } => " = "@,
            ExtractorFilter::Neq { field, value } => " != "@,
        }) + placeholder(n + 1)
    } else {
        " and false"@
    }
}

/// The values that a filter brings: its field and the string it compares
/// with.
pub open spec fn filter_values(filter: ExtractorFilter) -> Seq<Seq<char>> {
    match filter.expected() {
        Some(expected) => seq![filter.field_name(), expected],
        None => Seq::empty(),
    }
}

/// The conditions that stand for the filters, the first of whose values is
/// the n-th.
pub open spec fn filter_conditions(filters: Seq<ExtractorFilter>, n: nat) -> Seq<char>
    decreases filters.len(),
{
    if filters.len() == 0 {
        Seq::empty()
    } else {
        filter_conditions(filters.drop_last(), n) + filter_condition(
            filters.last(),
            n + values_brought(filters.drop_last()),
        )
    }
}

/// The values that the filters bring, in their order.
pub open spec fn all_filter_values(filters: Seq<ExtractorFilter>) -> Seq<Seq<char>>
    decreases filters.len(),
{
    if filters.len() == 0 {
        Seq::empty()
    } else {
        all_filter_values(filters.drop_last()) + filter_values(filters.last())
    }
}

/// The text that selects the content of a repository that a binding has not
/// processed.
pub open spec fn selection_head() -> Seq<char> {
    "select * from content where repository_id=$1 and COALESCE(cast(extractor_bindings_state->'state'->>$2 as int),0) < 1"@
}

/// The text of the statement that selects the content that still needs
/// processing by a binding.
pub open spec fn selection_text(filters: Seq<ExtractorFilter>, content_id: Option<Seq<char>>) -> Seq<
    char,
> {
    match content_id {
        Some(_) => selection_head() + " and id = $3"@ + filter_conditions(filters, 4),
        None => selection_head() + filter_conditions(filters, 3),
    }
}

/// The values of that statement.
pub open spec fn selection_values(
    repository: Seq<char>,
    binding: ExtractorBinding,
    content_id: Option<Seq<char>>,
) -> Seq<Seq<char>> {
    match content_id {
        Some(c) => seq![repository, binding.name@, c] + all_filter_values(binding.filters@),
        None => seq![repository, binding.name@] + all_filter_values(binding.filters@),
    }
}

/// The filters bring at most two values each.
pub proof fn lemma_values_brought_bound(filters: Seq<ExtractorFilter>)
    ensures
        values_brought(filters) <= 2 * filters.len(),
    decreases filters.len(),
{
    if filters.len() > 0 {
        lemma_values_brought_bound(filters.drop_last());
    }
}

/// The statement that selects, in a relational store, the content of a
/// repository that still needs processing by a binding, or only the item
/// named if it does. Every name and every value that comes from outside is
/// passed as a value, none is written into the text.
pub fn selection_statement(
    repo_id: &str,
    extractor_binding: &ExtractorBinding,
    content_id: Option<&str>,
) -> (r: Statement)
    ensures
        r.text@ == selection_text(extractor_binding.filters@, optional_text(content_id)),
        values_of(r.values@) == selection_values(
            repo_id@,
            *extractor_binding,
            optional_text(content_id),
        ),
{
    let ghost filters = extractor_binding.filters@;
    let mut values: Vec<String> = Vec::new();
    values.push(repo_id.to_owned());
    values.push(extractor_binding.name.clone());
    let mut text =
        "select * from content where repository_id=$1 and COALESCE(cast(extractor_bindings_state->'state'->>$2 as int),0) < 1".to_owned();
    let mut idx: u128 = 3;
    match content_id {
        Some(c) => {
            values.push(c.to_owned());
            text.append(" and id = $3");
            idx = 4;
        },
        None => {},
    }
    let ghost first: nat = idx as nat;
    let ghost head = text@;
    let ghost fixed = values_of(values@);
    let mut i: usize = 0;
    proof {
        assert(filters.take(0) =~= Seq::empty());
        assert(text@ =~= head + filter_conditions(filters.take(0), first));
        assert(values_of(values@) =~= fixed + all_filter_values(filters.take(0)));
    }
    while i < extractor_binding.filters.len()
        invariant
            i <= filters.len(),
            filters == extractor_binding.filters@,
            first == 3 || first == 4,
            idx == first + values_brought(filters.take(i as int)),
            text@ == head + filter_conditions(filters.take(i as int), first),
            values_of(values@) == fixed + all_filter_values(filters.take(i as int)),
        decreases filters.len() - i,
    {
        let filter = &extractor_binding.filters[i];
        let ghost seen = filters.take(i as int);
        let ghost held = values_of(values@);
        let ghost written = text@;
        proof {
            lemma_values_brought_bound(seen);
            assert(filters.take(i + 1).drop_last() =~= seen);
            assert(filters.take(i + 1).last() == *filter);
        }
        let (expected, differs) = match filter {
            ExtractorFilter::Eq { field, value } => (value.as_str(), false),
            ExtractorFilter::Neq { field, value } => (value.as_str(), true),
        };
        match expected {
            Some(e) => {
                values.push(filter.field().to_owned());
                values.push(e.to_owned());
                text.append(" and metadata->>");
                text.append("$");
                text.append(to_decimal(idx).as_str());
                if differs {
                    text.append(" != ");
                } else {
                    text.append(" = ");
                }
                text.append("$");
                text.append(to_decimal(idx + 1).as_str());
                proof {
                    assert(text@ =~= written + filter_condition(*filter, idx as nat));
                    assert(values_of(values@) =~= held + filter_values(*filter));
                }
                idx = idx + 2;
            },
            None => {
                text.append(" and false");
                proof {
                    assert(text@ =~= written + filter_condition(*filter, idx as nat));
                    assert(values_of(values@) =~= held + filter_values(*filter));
                }
            },
        }
        proof {
            assert(text@ =~= head + filter_conditions(filters.take(i + 1), first));
            assert(values_of(values@) =~= fixed + all_filter_values(filters.take(i + 1)));
        }
        i += 1;
    }
    assert(filters.take(i as int) =~= filters);
    Statement { text, values }
}

/// The statement that records, in a relational store, that a binding has
/// processed a content item: it sets the one marker of the binding in the
/// completion map of the item, in place.
pub fn completion_statement(content_id: &str, binding_id: &str) -> (r: Statement)
    ensures
        r.text@
            == "update content set extractor_bindings_state['state'][$2] = '1' where id=$1"@,
        values_of(r.values@) == seq![content_id@, binding_id@],
{
    let mut values: Vec<String> = Vec::new();
    values.push(content_id.to_owned());
    values.push(binding_id.to_owned());
    assert(values_of(values@) =~= seq![content_id@, binding_id@]);
    Statement {
        text: "update content set extractor_bindings_state['state'][$2] = '1' where id=$1".to_owned(),
        values,
    }
}

/// The statement that finds, in a relational store, the repository of the
/// name if it holds a binding of the name given.
pub fn binding_statement(repository: &str, id: &str) -> (r: Statement)
    ensures
        r.text@
            == "select name, metadata, data_connectors, extractor_bindings  from data_repository, jsonb_each(data_repository.extractor_bindings) binding_ids where data_repository.name = $1 and binding_ids.key = $2"@,
        values_of(r.values@) == seq![repository@, id@],
{
    let mut values: Vec<String> = Vec::new();
    values.push(repository.to_owned());
    values.push(id.to_owned());
    assert(values_of(values@) =~= seq![repository@, id@]);
    Statement {
        text: "select name, metadata, data_connectors, extractor_bindings  from data_repository, jsonb_each(data_repository.extractor_bindings) binding_ids where data_repository.name = $1 and binding_ids.key = $2".to_owned(),
        values,
    }
}

} // verus!
