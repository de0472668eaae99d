//! What the editor extension tells the editor of the debug adapter.

use crate::state;
use crate::text;
use vstd::prelude::*;
use vstd::string::*;

verus! {

/// The value of the first variable with a name.
pub open spec fn variable(env: Seq<(String, String)>, name: Seq<char>) -> Option<Seq<char>>
    decreases env.len(),
{
    if env.len() == 0 {
        None
    } else if env[0].0@ == name {
        Some(env[0].1@)
    } else {
        variable(env.skip(1), name)
    }
}

/// Where the adapter is: where the search path has it, else below home.
pub open spec fn adapter_at(found: Option<Seq<char>>, env: Seq<(String, String)>) -> Seq<char> {
    match found {
        Some(path) => path,
        None => (match variable(env, "HOME"@) {
            Some(home) => home,
            None => ""@,
        }) + "/.local/bin/lean-goalview-dap"@,
    }
}

/// Where the adapter is. `found` is where the search path of the worktree has
/// it, `env` the environment of its shell.
pub fn adapter_path(found: &Option<String>, env: &Vec<(String, String)>) -> (r: String)
    ensures
        r@ == adapter_at(state::opt_text(*found), env@),
{
    if let Some(path) = found {
        return path.clone();
    }
    let mut i: usize = 0;
    let mut out = String::new();
    proof {
        assert(env@.skip(0) =~= env@);
        reveal_strlit("");
        assert(out@ =~= ""@);
    }
    while i < env.len()
        invariant_except_break
            out@ == ""@,
            variable(env@, "HOME"@) == variable(env@.skip(i as int), "HOME"@),
        invariant
            i <= env.len(),
        ensures
            out@ == match variable(env@, "HOME"@) {
                Some(home) => home,
                None => ""@,
            },
        decreases env.len() - i,
    {
        proof {
            let t = env@.skip(i as int);
            assert(t[0] == env@[i as int]);
            assert(t.skip(1) =~= env@.skip(i + 1));
        }
        if text::same_text(env[i].0.as_str(), "HOME") {
            out = env[i].1.clone();
            break;
        }
        i += 1;
    }
    out.append("/.local/bin/lean-goalview-dap");
    out
}

/// How the editor is to start the adapter, with a configuration to launch.
pub struct AdapterBinary {
    pub command: Option<String>,
    pub arguments: Vec<String>,
    pub envs: Vec<(String, String)>,
    pub cwd: Option<String>,
    pub configuration: String,
    pub request: RequestKind,
}

/// How a debug session begins.
#[derive(Clone, Copy, PartialEq, Eq, Debug, Structural)]
pub enum RequestKind {
    Launch,
    Attach,
}

/// A debug scenario.
pub struct Scenario {
    pub label: String,
    pub adapter: String,
    pub config: String,
}

/// How the editor is to start the adapter: the program that the user names, else
/// the one that was found, without arguments.
pub fn get_dap_binary(
    named: &Option<String>,
    found: &Option<String>,
    env: &Vec<(String, String)>,
    configuration: String,
) -> (r: AdapterBinary)
    ensures
        state::opt_text(r.command) == Some(
            match state::opt_text(*named) {
                Some(path) => path,
                None => adapter_at(state::opt_text(*found), env@),
            },
        ),
        r.arguments@.len() == 0,
        r.envs@.len() == 0,
        r.cwd is None,
        r.configuration == configuration,
        r.request == RequestKind::Launch,
{
    let command = match named {
        Some(path) => path.clone(),
        None => adapter_path(found, env),
    };
    AdapterBinary {
        command: Some(command),
        arguments: Vec::new(),
        envs: Vec::new(),
        cwd: None,
        configuration,
        request: RequestKind::Launch,
    }
}

/// A debug session of the adapter is always launched.
pub fn dap_request_kind() -> (r: RequestKind)
    ensures
        r == RequestKind::Launch,
{
    RequestKind::Launch
}

/// The scenario for a label and an adapter, with nothing to configure.
pub fn dap_config_to_scenario(label: String, adapter: String) -> (r: Scenario)
    ensures
        r.label == label,
        r.adapter == adapter,
        r.config@ == "{}"@,
{
    Scenario { label, adapter, config: "{}".to_owned() }
}

/// The adapter on the search path goes before the one below home, which is what the
/// first variable of that name says; other variables do not matter.
pub proof fn law_adapter_found(
    path: Seq<char>,
    before: Seq<(String, String)>,
    home: (String, String),
    behind: Seq<(String, String)>,
)
    requires
        forall|i: int| 0 <= i < before.len() ==> (#[trigger] before[i]).0@ != "HOME"@,
        home.0@ == "HOME"@,
    ensures
        adapter_at(Some(path), before) == path,
        adapter_at(None, before + (seq![home] + behind)) == home.1@
            + "/.local/bin/lean-goalview-dap"@,
        adapter_at(None, before) == "/.local/bin/lean-goalview-dap"@,
{
    let rest = seq![home] + behind;
    lemma_other_variables(before, rest);
    assert(rest[0] == home);
    lemma_other_variables(before, Seq::empty());
    assert(before + Seq::<(String, String)>::empty() =~= before);
    reveal_strlit("");
    assert(""@ + "/.local/bin/lean-goalview-dap"@ =~= "/.local/bin/lean-goalview-dap"@);
}

proof fn lemma_other_variables(before: Seq<(String, String)>, rest: Seq<(String, String)>)
    requires
        forall|i: int| 0 <= i < before.len() ==> (#[trigger] before[i]).0@ != "HOME"@,
    ensures
        variable(before + rest, "HOME"@) == variable(rest, "HOME"@),
    decreases before.len(),
{
    if before.len() == 0 {
        assert(before + rest =~= rest);
    } else {
        assert(before[0].0@ != "HOME"@);
        let t = before.skip(1);
        assert((before + rest)[0] == before[0]);
        assert((before + rest).skip(1) =~= t + rest);
        assert forall|i: int| 0 <= i < t.len() implies (#[trigger] t[i]).0@ != "HOME"@ by {
            assert(t[i] == before[i + 1]);
        }
        lemma_other_variables(t, rest);
    }
}

} // verus!
