//! The backend gateway model: the argument lists handed to the external
//! backend command, and the classification of a finished command's
//! outcome.  The command itself runs outside the library; the library
//! decides what to run and what its outcome means.
use vstd::prelude::*;
use vstd::string::StringExecFns;

verus! {

/// A gateway failure, as the error taxonomy distinguishes them: a
/// command that could not be launched, a command that exited non-zero
/// (with its diagnostic output), and a command that succeeded but whose
/// output could not be parsed.
#[derive(Debug)]
pub enum GatewayError {
    Launch,
    NonZeroExit(String),
    Unparseable,
}

/// What running one backend command produced: the process ran and
/// finished (with its exit status and both output streams), or it could
/// not be launched at all.
#[derive(Debug)]
pub enum CmdOutcome {
    Finished { exit_ok: bool, stdout_text: String, stderr_text: String },
    LaunchFailed,
}

/// Classification of a command outcome: a launch failure and a non-zero
/// exit are distinct failures, and only a zero exit yields the output.
pub fn classify_outcome(outcome: CmdOutcome) -> (r: Result<String, GatewayError>)
    ensures
        outcome is LaunchFailed <==> r == Result::<String, GatewayError>::Err(GatewayError::Launch),
        outcome matches CmdOutcome::Finished { exit_ok: true, stdout_text, .. } ==> r == Result::<
            String,
            GatewayError,
        >::Ok(stdout_text),
        outcome matches CmdOutcome::Finished { exit_ok: false, stderr_text, .. } ==> r == Result::<
            String,
            GatewayError,
        >::Err(GatewayError::NonZeroExit(stderr_text)),
{
    match outcome {
        CmdOutcome::LaunchFailed => Err(GatewayError::Launch),
        CmdOutcome::Finished { exit_ok, stdout_text, stderr_text } => {
            if exit_ok {
                Ok(stdout_text)
            } else {
                Err(GatewayError::NonZeroExit(stderr_text))
            }
        },
    }
}

/// Reading one secret reference: the outcome of `item read <reference>`
/// is classified exactly as `classify_outcome` does; the secret is the
/// command's output on a zero exit.
pub fn op_read_reference(outcome: CmdOutcome) -> (r: Result<String, GatewayError>)
    ensures
        outcome is LaunchFailed <==> r == Result::<String, GatewayError>::Err(GatewayError::Launch),
        outcome matches CmdOutcome::Finished { exit_ok: true, stdout_text, .. } ==> r == Result::<
            String,
            GatewayError,
        >::Ok(stdout_text),
        outcome matches CmdOutcome::Finished { exit_ok: false, stderr_text, .. } ==> r == Result::<
            String,
            GatewayError,
        >::Err(GatewayError::NonZeroExit(stderr_text)),
{
    classify_outcome(outcome)
}

/// The listing argument list for a vault selector.
pub open spec fn vault_args(vault: Seq<char>) -> Seq<Seq<char>> {
    if vault == "favorites"@ {
        seq!["item"@, "list"@, "--favorite"@, "--format"@, "json"@]
    } else if vault == "all"@ {
        seq!["item"@, "list"@, "--format"@, "json"@]
    } else {
        seq!["item"@, "list"@, "--vault"@, vault, "--format"@, "json"@]
    }
}

/// The argument list that lists records for a vault selector:
/// `favorites` lists favorites only, `all` lists everything, and any
/// other value scopes the listing to that vault name.
pub fn get_vault_args(vault: &String) -> (r: Vec<String>)
    ensures
        r.deep_view() == vault_args(vault@),
{
    let favorites = String::from_str("favorites");
    let all = String::from_str("all");
    let mut r: Vec<String> = Vec::new();
    r.push(String::from_str("item"));
    r.push(String::from_str("list"));
    if vault.eq(&favorites) {
        r.push(String::from_str("--favorite"));
    } else if vault.eq(&all) {
    } else {
        r.push(String::from_str("--vault"));
        r.push(vault.clone());
    }
    r.push(String::from_str("--format"));
    r.push(String::from_str("json"));
    proof {
        assert(r.deep_view() =~= vault_args(vault@));
    }
    r
}

/// The argument list that fetches one record by id.
pub open spec fn record_args(id: Seq<char>) -> Seq<Seq<char>> {
    seq!["item"@, "get"@, id, "--format"@, "json"@]
}

/// The argument list for `item get <id> --format json`.
pub fn get_record_args(id: &String) -> (r: Vec<String>)
    ensures
        r.deep_view() == record_args(id@),
{
    let mut r: Vec<String> = Vec::new();
    r.push(String::from_str("item"));
    r.push(String::from_str("get"));
    r.push(id.clone());
    r.push(String::from_str("--format"));
    r.push(String::from_str("json"));
    proof {
        assert(r.deep_view() =~= record_args(id@));
    }
    r
}

/// The argument list that resolves one secret reference.
pub open spec fn read_args(reference: Seq<char>) -> Seq<Seq<char>> {
    seq!["read"@, reference]
}

/// The argument list for `read <reference>`.
pub fn get_read_args(reference: &String) -> (r: Vec<String>)
    ensures
        r.deep_view() == read_args(reference@),
{
    let mut r: Vec<String> = Vec::new();
    r.push(String::from_str("read"));
    r.push(reference.clone());
    proof {
        assert(r.deep_view() =~= read_args(reference@));
    }
    r
}

} // verus!
