//! Gathering the targets of all backends, and showing them.
use vstd::prelude::*;

use crate::backends::{is_target_url, spec_is_target_url};
use crate::target::Target;
use crate::text::{pad_right, push_padded};

verus! {

/// Why a backend could not list its targets.
pub enum ListError {
    /// The backend's program is not installed.
    NotFound,
    /// Any other failure, with its message.
    Failed(String),
}

/// The targets of the backends that listed theirs, in backend order.
pub open spec fn listed_targets(rs: Seq<Result<Vec<Target>, ListError>>) -> Seq<Target>
    decreases rs.len(),
{
    if rs.len() == 0 {
        seq![]
    } else {
        listed_targets(rs.drop_last()) + match rs.last() {
            Ok(ts) => ts@,
            Err(_) => seq![],
        }
    }
}

/// A warning for each backend that failed for another reason than a missing
/// program.
pub open spec fn list_warnings(rs: Seq<Result<Vec<Target>, ListError>>) -> Seq<Seq<char>>
    decreases rs.len(),
{
    if rs.len() == 0 {
        seq![]
    } else {
        list_warnings(rs.drop_last()) + match rs.last() {
            Err(ListError::Failed(m)) => seq!["warning: "@ + m@],
            _ => seq![],
        }
    }
}

/// All targets of all backends, with the warnings to show: a backend whose
/// program is missing is passed over silently.
pub fn merge_target_lists(results: Vec<Result<Vec<Target>, ListError>>) -> (r: (
    Vec<Target>,
    Vec<String>,
))
    ensures
        r.0@ == listed_targets(results@),
        crate::target::string_views(r.1@) == list_warnings(results@),
{
    let ghost all = results@;
    let mut rest = results;
    let mut targets: Vec<Target> = Vec::new();
    let mut warnings: Vec<String> = Vec::new();
    let ghost mut done: Seq<Result<Vec<Target>, ListError>> = Seq::empty();
    while rest.len() > 0
        invariant
            all == done + rest@,
            targets@ == listed_targets(done),
            crate::target::string_views(warnings@) == list_warnings(done),
        decreases rest.len(),
    {
        let item = rest.remove(0);
        let ghost ig = item;
        proof {
            assert(done.push(item) + rest@ =~= all);
            assert(done.push(item).drop_last() =~= done);
        }
        match item {
            Ok(mut ts) => {
                let ghost tv = ts@;
                let ghost before = targets@;
                targets.append(&mut ts);
                assert(targets@ =~= before + tv);
                proof {
                    done = done.push(ig);
                }
                assert(targets@ =~= listed_targets(done));
                assert(crate::target::string_views(warnings@) =~= list_warnings(done));
            },
            Err(ListError::NotFound) => {
                proof {
                    done = done.push(ig);
                }
                assert(targets@ =~= listed_targets(done));
                assert(crate::target::string_views(warnings@) =~= list_warnings(done));
            },
            Err(ListError::Failed(m)) => {
                let w = crate::text::concat2("warning: ", m.as_str());
                let ghost before = crate::target::string_views(warnings@);
                warnings.push(w);
                proof {
                    done = done.push(ig);
                }
                assert(targets@ =~= listed_targets(done));
                assert(crate::target::string_views(warnings@) =~= before.push(
                    "warning: "@ + m@,
                ));
            },
        }
    }
    assert(done =~= all);
    (targets, warnings)
}

/// A line of the target table: id, command and creation time in columns of
/// 24, 20 and 20 characters, then the URL.
pub open spec fn table_row(
    id: Seq<char>,
    command: Seq<char>,
    created: Seq<char>,
    url: Seq<char>,
) -> Seq<char> {
    pad_right(id, 24) + seq![' '] + pad_right(command, 20) + seq![' '] + pad_right(created, 20)
        + seq![' '] + url
}

fn row_line(id: &str, command: &str, created: &str, url: &str) -> (r: String)
    ensures
        r@ == table_row(id@, command@, created@, url@),
{
    let mut r = String::new();
    push_padded(&mut r, id, 24);
    r.append(" ");
    push_padded(&mut r, command, 20);
    r.append(" ");
    push_padded(&mut r, created, 20);
    r.append(" ");
    r.append(url);
    proof {
        reveal_strlit(" ");
    }
    assert(r@ =~= table_row(id@, command@, created@, url@));
    r
}

/// The target table: a header, then one row per target.
pub fn table_lines(targets: &Vec<Target>) -> (r: Vec<String>)
    ensures
        r@.len() == targets@.len() + 1,
        r@[0]@ == table_row("ID"@, "COMMAND"@, "CREATED"@, "NAME"@),
        forall|i: int|
            0 <= i < targets@.len() ==> #[trigger] r@[i + 1]@ == table_row(
                targets@[i].id@,
                targets@[i].command@,
                targets@[i].created@,
                targets@[i].url@,
            ),
{
    let mut r: Vec<String> = Vec::new();
    r.push(row_line("ID", "COMMAND", "CREATED", "NAME"));
    let mut i: usize = 0;
    while i < targets.len()
        invariant
            i <= targets.len(),
            r@.len() == i + 1,
            r@[0]@ == table_row("ID"@, "COMMAND"@, "CREATED"@, "NAME"@),
            forall|j: int|
                0 <= j < i ==> #[trigger] r@[j + 1]@ == table_row(
                    targets@[j].id@,
                    targets@[j].command@,
                    targets@[j].created@,
                    targets@[j].url@,
                ),
        decreases targets.len() - i,
    {
        let t = &targets[i];
        let line = row_line(t.id.as_str(), t.command.as_str(), t.created.as_str(), t.url.as_str());
        r.push(line);
        i += 1;
    }
    r
}

/// The choices of the interactive menu: each target's URL with its command.
pub fn menu_items(targets: &Vec<Target>) -> (r: Vec<String>)
    ensures
        r@.len() == targets@.len(),
        forall|i: int|
            0 <= i < targets@.len() ==> #[trigger] r@[i]@ == targets@[i].url@ + " ("@
                + targets@[i].command@ + ")"@,
{
    let mut r: Vec<String> = Vec::new();
    let mut i: usize = 0;
    while i < targets.len()
        invariant
            i <= targets.len(),
            r@.len() == i,
            forall|j: int|
                0 <= j < i ==> #[trigger] r@[j]@ == targets@[j].url@ + " ("@ + targets@[j].command@
                    + ")"@,
        decreases targets.len() - i,
    {
        let t = &targets[i];
        let mut item = crate::text::concat3(t.url.as_str(), " (", t.command.as_str());
        item.append(")");
        r.push(item);
        i += 1;
    }
    r
}


/// Words joined by single spaces.
pub open spec fn join_spaces(ws: Seq<Seq<char>>) -> Seq<char>
    decreases ws.len(),
{
    if ws.len() == 0 {
        seq![]
    } else if ws.len() == 1 {
        ws[0]
    } else {
        join_spaces(ws.drop_last()) + seq![' '] + ws.last()
    }
}

/// The text typed by `type TARGET WORDS...`: the words joined by spaces, as a
/// shell would have split them.
pub fn typed_text(words: &Vec<String>) -> (r: String)
    ensures
        r@ == join_spaces(crate::target::string_views(words@)),
{
    let ghost ws = crate::target::string_views(words@);
    let mut r = String::new();
    let mut i: usize = 0;
    assert(ws.take(0) =~= Seq::<Seq<char>>::empty());
    while i < words.len()
        invariant
            ws == crate::target::string_views(words@),
            i <= words.len(),
            r@ == join_spaces(ws.take(i as int)),
        decreases words.len() - i,
    {
        assert(ws.take(i + 1).drop_last() =~= ws.take(i as int));
        assert(ws.take(i + 1).last() == words@[i as int]@);
        if i > 0 {
            crate::text::push_char(&mut r, ' ');
        } else {
            assert(ws.take(1) =~= seq![words@[0]@]);
        }
        r.append(words[i].as_str());
        i += 1;
    }
    assert(ws.take(words.len() as int) =~= ws);
    r
}

/// What to do when no command is given.
pub enum DefaultCommand {
    /// Attach to the target URL given alone.
    Attach(String),
    /// List the targets.
    List,
}

/// A lone argument that is a target URL is attached to; otherwise the
/// targets are listed.
pub fn default_command(target: Option<String>) -> (r: DefaultCommand)
    ensures
        match target {
            Some(t) => if spec_is_target_url(t@) {
                r matches DefaultCommand::Attach(u) && u@ == t@
            } else {
                r is List
            },
            None => r is List,
        },
{
    match target {
        Some(t) => {
            if is_target_url(t.as_str()) {
                DefaultCommand::Attach(t)
            } else {
                DefaultCommand::List
            }
        },
        None => DefaultCommand::List,
    }
}

} // verus!
