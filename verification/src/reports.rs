//! Diagnostics: turns a structured parse failure and the source
//! registry into a renderable report. Pure data in, pure data out;
//! rendering to a terminal is an outside concern.

use crate::parse::ParseError;
use crate::source::SourceTree;
use crate::span::Span;
use crate::tokenize::TokenType;
use vstd::pervasive::unreached;
use vstd::prelude::*;
use vstd::string::StringExecFns;

verus! {

/// One labeled span of a report: the name of the file it points into,
/// the byte span, and the message attached to that location.
pub struct Label {
    pub file: String,
    pub span: Span,
    pub message: String,
}

/// A structured diagnostic: an error code, a top-level message, and
/// one or more labeled spans.
pub struct Report {
    pub code: u32,
    pub message: String,
    pub labels: Vec<Label>,
}

/// How a list of acceptable token kinds reads in a label: each kind's
/// description, comma-separated, in the order given.
pub open spec fn spec_expected_list(kinds: Seq<TokenType>) -> Seq<char>
    decreases kinds.len(),
{
    if kinds.len() == 0 {
        Seq::empty()
    } else if kinds.len() == 1 {
        kinds[0].spec_describe()
    } else {
        spec_expected_list(kinds.drop_last()) + ", "@ + kinds.last().spec_describe()
    }
}

fn expected_list(kinds: &Vec<TokenType>) -> (r: String)
    ensures
        r@ == spec_expected_list(kinds@),
{
    let mut out = String::new();
    let mut i: usize = 0;
    while i < kinds.len()
        invariant
            0 <= i <= kinds@.len(),
            out@ == spec_expected_list(kinds@.subrange(0, i as int)),
        decreases kinds@.len() - i,
    {
        if i > 0 {
            out.append(", ");
        }
        let d = kinds[i].describe();
        out.append(d.as_str());
        proof {
            let pre = kinds@.subrange(0, i as int);
            let cur = kinds@.subrange(0, i as int + 1);
            assert(cur.drop_last() =~= pre);
            assert(cur.last() == kinds@[i as int]);
            if i == 0 {
                assert(Seq::<char>::empty() + d@ =~= d@);
            }
        }
        i = i + 1;
    }
    proof {
        assert(kinds@.subrange(0, kinds@.len() as int) =~= kinds@);
    }
    out
}

/// How the one label of an unexpected-token report reads: what was
/// found and every kind that would have been acceptable.
pub open spec fn spec_label_message(found: TokenType, expected: Seq<TokenType>) -> Seq<char> {
    "found "@ + found.spec_describe() + " but expected any of "@ + spec_expected_list(expected)
}

fn label_message(found: TokenType, expected: &Vec<TokenType>) -> (r: String)
    ensures
        r@ == spec_label_message(found, expected@),
{
    let mut out = String::from_str("found ");
    let d = found.describe();
    out.append(d.as_str());
    out.append(" but expected any of ");
    let list = expected_list(expected);
    out.append(list.as_str());
    out
}

/// Builds the report for a parse failure: error code zero, the
/// message `Unexpected token`, and one label anchored at the
/// offending token's span, naming what was found and what was
/// acceptable. The failure's source id must be one this registry
/// handed out.
pub fn create(err: ParseError, source_tree: SourceTree) -> (r: Report)
    requires
        match err {
            ParseError::UnexpectedToken { source_id, .. } => 0 <= source_id.spec_index()
                < source_tree.spec_files().len(),
        },
    ensures
        r.code == 0,
        r.message@ == "Unexpected token"@,
        r.labels@.len() == 1,
        match err {
            ParseError::UnexpectedToken { source_id, expected_any, found } => {
                &&& r.labels@[0].file@ == source_tree.spec_files()[source_id.spec_index()].spec_name()
                &&& r.labels@[0].span == found.spec_span()
                &&& r.labels@[0].message@ == spec_label_message(found.spec_kind(), expected_any@)
            },
        },
{
    match err {
        ParseError::UnexpectedToken { source_id, expected_any, found } => {
            let file = match source_tree.find(source_id) {
                Some(f) => f,
                None => unreached(),
            };
            let name = String::from_str(file.name());
            let message = label_message(found.tok_type(), &expected_any);
            let label = Label { file: name, span: *found.span(), message };
            let mut labels: Vec<Label> = Vec::new();
            labels.push(label);
            Report { code: 0, message: String::from_str("Unexpected token"), labels }
        },
    }
}

} // verus!
