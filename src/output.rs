use vstd::prelude::*;

use crate::config::Config;
use crate::secrets::{pretty_json_of, SecretsMap};
use crate::session::names_view;

verus! {

/// Why the output text could not be made; `render` does not fail on a
/// well-formed map.
#[derive(Debug, Clone, Copy, PartialEq, Eq, Structural)]
pub enum RenderError {
    /// The JSON serializer failed.
    Json,
}

/// Each line followed by a newline, in order.
pub open spec fn lines_text(lines: Seq<Seq<char>>) -> Seq<char>
    decreases lines.len(),
{
    if lines.len() == 0 {
        Seq::empty()
    } else {
        lines_text(lines.drop_last()) + lines.last() + seq!['\n']
    }
}

/// The text of a run whose fetches all succeeded: nothing when no name was
/// requested; otherwise the values one per line, or the JSON object followed
/// by a newline.
pub open spec fn output_spec(
    names_requested: bool,
    only_value: bool,
    values: Seq<Seq<char>>,
    secrets: Map<Seq<char>, Seq<char>>,
) -> Seq<char> {
    if !names_requested {
        Seq::empty()
    } else if only_value {
        lines_text(values)
    } else {
        pretty_json_of(secrets) + seq!['\n']
    }
}

/// Joins `lines`, each followed by a newline.
pub fn join_lines(lines: &Vec<String>) -> (r: String)
    ensures
        r@ == lines_text(names_view(lines@)),
{
    let mut r = String::new();
    let mut i: usize = 0;
    while i < lines.len()
        invariant
            i <= lines.len(),
            r@ == lines_text(names_view(lines@.take(i as int))),
        decreases lines.len() - i,
    {
        proof {
            reveal_strlit("\n");
        }
        r.append(lines[i].as_str());
        r.append("\n");
        proof {
            let next = names_view(lines@.take(i as int + 1));
            assert(next.drop_last() =~= names_view(lines@.take(i as int)));
            assert(next.last() == lines@[i as int]@);
        }
        i = i + 1;
    }
    assert(lines@.take(lines@.len() as int) =~= lines@);
    r
}

/// The output of a run whose fetches all succeeded.
pub fn render(config: &Config, secrets: &SecretsMap) -> (r: Result<String, RenderError>)
    requires
        secrets.wf(),
    ensures
        r is Ok,
        r matches Ok(t) ==> t@ == output_spec(
            config.secrets_filter@.len() > 0,
            config.only_value,
            secrets.pairs().map_values(|e: (Seq<char>, Seq<char>)| e.1),
            secrets@,
        ),
{
    if config.secrets_filter.len() == 0 {
        return Ok(String::new());
    }
    if config.only_value {
        let lines = secrets.value_lines();
        let t = join_lines(&lines);
        assert(names_view(lines@) =~= secrets.pairs().map_values(
            |e: (Seq<char>, Seq<char>)| e.1,
        ));
        Ok(t)
    } else {
        match secrets.to_json() {
            Ok(j) => {
                let mut t = j;
                proof {
                    reveal_strlit("\n");
                }
                t.append("\n");
                Ok(t)
            },
            Err(e) => Err(e),
        }
    }
}

} // verus!
