//! Entity extraction: locating the entity block that the ledger tool prints
//! on success and collecting the identifiers it lists.
//!
//! The captured output is scanned for the *last* occurrence of the marker
//! `New Entities`; the text from that marker to the end is split into lines,
//! and each line carrying one of the fixed entity-kind labels contributes its
//! third whitespace-separated token (bullet, label, address) as an entity
//! identifier. The line shape is a fixed, format-coupled contract with the
//! external tool: any drift in its output makes extraction fail.

use vstd::prelude::*;

use crate::text::{
    has_prefix, is_prefix_of, lines_of, occurs_at, rfind, rfind_str, split_lines, split_tokens,
    tokens_of, lemma_rfind_is_last,
};

verus! {

/// Why extraction produced no entities.
#[derive(Clone, Copy, Debug, PartialEq, Eq, Structural)]
pub enum ExtractError {
    /// The marker does not occur in the captured output.
    NotFound,
    /// The marker occurs, but no line after it carries an entity.
    EmptyResult,
}

impl ExtractError {
    /// A human-readable description of the error.
    pub fn message(&self) -> (r: &'static str)
        ensures
            *self == ExtractError::NotFound ==> r@ == "No entities found"@,
            *self == ExtractError::EmptyResult ==> r@ == "No entities found"@,
    {
        match self {
            ExtractError::NotFound => "No entities found",
            ExtractError::EmptyResult => "No entities found",
        }
    }
}

/// The marker that opens the entity block.
pub open spec fn marker() -> Seq<char> {
    "New Entities"@
}

/// The label prefix of a component entity line.
pub open spec fn component_prefix() -> Seq<char> {
    "└─ Component: "@
}

/// The label prefix of a resource-definition entity line.
pub open spec fn resource_def_prefix() -> Seq<char> {
    "└─ ResourceDef: "@
}

/// The label prefix of a package entity line.
pub open spec fn package_prefix() -> Seq<char> {
    "└─ Package: "@
}

/// The line carries an entity: it starts with one of the three entity-kind
/// labels and has a third whitespace-separated token to serve as the address.
pub open spec fn is_entity_line(line: Seq<char>) -> bool {
    &&& {
        ||| is_prefix_of(component_prefix(), line)
        ||| is_prefix_of(resource_def_prefix(), line)
        ||| is_prefix_of(package_prefix(), line)
    }
    &&& tokens_of(line).len() >= 3
}

/// The entity identifier of a matching line: its third token.
pub open spec fn entity_of(line: Seq<char>) -> Seq<char> {
    tokens_of(line)[2]
}

/// The identifiers of the matching lines of `ls`, in order.
pub open spec fn entities_of(ls: Seq<Seq<char>>) -> Seq<Seq<char>>
    decreases ls.len(),
{
    if ls.len() == 0 {
        Seq::empty()
    } else {
        let rest = entities_of(ls.skip(1));
        if is_entity_line(ls[0]) {
            seq![entity_of(ls[0])] + rest
        } else {
            rest
        }
    }
}

/// What extraction returns on a captured output: the identifiers listed after
/// the last marker occurrence, `NotFound` when the marker is absent, and
/// `EmptyResult` when no line after the marker carries an entity.
pub open spec fn extract_spec(text: Seq<char>) -> Result<Seq<Seq<char>>, ExtractError> {
    match rfind(text, marker()) {
        None => Err(ExtractError::NotFound),
        Some(loc) => {
            let es = entities_of(lines_of(text.skip(loc)));
            if es.len() == 0 {
                Err(ExtractError::EmptyResult)
            } else {
                Ok(es)
            }
        },
    }
}

/// Extraction anchors at the *last* occurrence of the marker: when the
/// marker occurs at `i` and nowhere after, exactly the lines from `i` to the
/// end of the text are scanned, and earlier entity blocks contribute
/// nothing.
pub proof fn lemma_extract_uses_last_marker(text: Seq<char>, i: int)
    requires
        occurs_at(text, marker(), i),
        forall|j: int| j > i ==> !occurs_at(text, marker(), j),
    ensures
        rfind(text, marker()) == Some(i),
        extract_spec(text) == (if entities_of(lines_of(text.skip(i))).len() == 0 {
            Err::<Seq<Seq<char>>, ExtractError>(ExtractError::EmptyResult)
        } else {
            Ok::<Seq<Seq<char>>, ExtractError>(entities_of(lines_of(text.skip(i))))
        }),
{
    lemma_rfind_is_last(text, marker());
    assert(rfind(text, marker()) is Some);
    let k = rfind(text, marker())->Some_0;
    assert(k == i);
}

/// The identifier of a single line, when the line carries one.
fn line_entity(line: &str) -> (r: Option<String>)
    ensures
        match r {
            Some(e) => is_entity_line(line@) && e@ == entity_of(line@),
            None => !is_entity_line(line@),
        },
{
    let c = has_prefix(line, "└─ Component: ");
    let d = has_prefix(line, "└─ ResourceDef: ");
    let p = has_prefix(line, "└─ Package: ");
    if c || d || p {
        let toks = split_tokens(line);
        if toks.len() >= 3 {
            let e = toks[2].clone();
            proof {
                assert(toks@.map_values(|t: String| t@)[2] == toks@[2]@);
            }
            Some(e)
        } else {
            None
        }
    } else {
        None
    }
}

/// Extracts the entity identifiers from a captured output, as `extract_spec`
/// describes: the block opened by the last `New Entities` marker is scanned
/// line by line, and each matching line contributes its address token.
pub fn walk_entities(stdout: String) -> (r: Result<Vec<String>, ExtractError>)
    ensures
        match extract_spec(stdout@) {
            Ok(es) => r is Ok && r->Ok_0@.map_values(|t: String| t@) == es,
            Err(e) => r is Err && r->Err_0 == e,
        },
{
    let s = stdout.as_str();
    let loc = match rfind_str(s, "New Entities") {
        None => {
            return Err(ExtractError::NotFound);
        },
        Some(loc) => loc,
    };
    let len: usize = s.unicode_len();
    proof {
        lemma_rfind_is_last(s@, marker());
    }
    let tail = s.substring_char(loc, len);
    let lines = split_lines(tail);
    proof {
        assert(s@.subrange(loc as int, len as int) =~= s@.skip(loc as int));
    }
    let ghost line_views = lines@.map_values(|t: String| t@);
    let mut out: Vec<String> = Vec::new();
    let mut li: usize = 0;
    proof {
        assert(line_views.skip(0) =~= line_views);
        assert(out@.map_values(|t: String| t@) + entities_of(line_views) =~= entities_of(
            line_views,
        ));
    }
    while li < lines.len()
        invariant
            li <= lines@.len(),
            line_views == lines@.map_values(|t: String| t@),
            entities_of(line_views) == out@.map_values(|t: String| t@) + entities_of(
                line_views.skip(li as int),
            ),
        decreases lines@.len() - li,
    {
        let r = line_entity(&lines[li]);
        proof {
            assert(line_views.skip(li as int)[0] == line_views[li as int]);
            assert(line_views[li as int] == lines@[li as int]@);
            assert(line_views.skip(li as int).skip(1) =~= line_views.skip(li + 1));
        }
        match r {
            Some(e) => {
                let ghost pre = out@.map_values(|t: String| t@);
                out.push(e);
                proof {
                    assert(out@.map_values(|t: String| t@) =~= pre.push(e@));
                    assert(pre.push(e@) + entities_of(line_views.skip(li + 1)) =~= pre + (seq![
                        entity_of(line_views[li as int]),
                    ] + entities_of(line_views.skip(li + 1))));
                }
            },
            None => {},
        }
        li += 1;
    }
    proof {
        assert(line_views.skip(lines@.len() as int).len() == 0);
        assert(out@.map_values(|t: String| t@) + entities_of(line_views.skip(lines@.len() as int))
            =~= out@.map_values(|t: String| t@));
    }
    if out.len() == 0 {
        Err(ExtractError::EmptyResult)
    } else {
        Ok(out)
    }
}

} // verus!
