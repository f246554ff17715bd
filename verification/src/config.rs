//! The default command list: reset the simulator, create an account bound to
//! `account`, and mint two fixed-supply resources bound to `token1` and
//! `token2`.

use vstd::prelude::*;

use crate::pipeline::{string_views, CommandSpec};

verus! {

/// Builds the default command list, in execution order: `reset` with no
/// binding, `new-account` bound to `account`, and two `new-resource-fixed`
/// commands minting 10000 `emunie` (EMT) bound to `token1` and 10000
/// `gmunie` (GMT) bound to `token2`.
pub fn default_config() -> (r: Vec<CommandSpec>)
    ensures
        r@.len() == 4,
        r@[0].command@ == "reset"@,
        r@[0].args@.len() == 0,
        r@[0].vars@.len() == 0,
        r@[1].command@ == "new-account"@,
        r@[1].args@.len() == 0,
        string_views(r@[1].vars@) == seq!["account"@],
        r@[2].command@ == "new-resource-fixed"@,
        string_views(r@[2].args@) == seq![
            "10000"@,
            "--name"@,
            "emunie"@,
            "--symbol"@,
            "EMT"@,
        ],
        string_views(r@[2].vars@) == seq!["token1"@],
        r@[3].command@ == "new-resource-fixed"@,
        string_views(r@[3].args@) == seq![
            "10000"@,
            "--name"@,
            "gmunie"@,
            "--symbol"@,
            "GMT"@,
        ],
        string_views(r@[3].vars@) == seq!["token2"@],
{
    let reset = CommandSpec {
        command: String::from_str("reset"),
        args: Vec::new(),
        vars: Vec::new(),
    };

    let mut account_vars: Vec<String> = Vec::new();
    account_vars.push(String::from_str("account"));
    let account = CommandSpec {
        command: String::from_str("new-account"),
        args: Vec::new(),
        vars: account_vars,
    };

    let mut token1_args: Vec<String> = Vec::new();
    token1_args.push(String::from_str("10000"));
    token1_args.push(String::from_str("--name"));
    token1_args.push(String::from_str("emunie"));
    token1_args.push(String::from_str("--symbol"));
    token1_args.push(String::from_str("EMT"));
    let mut token1_vars: Vec<String> = Vec::new();
    token1_vars.push(String::from_str("token1"));
    let token1 = CommandSpec {
        command: String::from_str("new-resource-fixed"),
        args: token1_args,
        vars: token1_vars,
    };

    let mut token2_args: Vec<String> = Vec::new();
    token2_args.push(String::from_str("10000"));
    token2_args.push(String::from_str("--name"));
    token2_args.push(String::from_str("gmunie"));
    token2_args.push(String::from_str("--symbol"));
    token2_args.push(String::from_str("GMT"));
    let mut token2_vars: Vec<String> = Vec::new();
    token2_vars.push(String::from_str("token2"));
    let token2 = CommandSpec {
        command: String::from_str("new-resource-fixed"),
        args: token2_args,
        vars: token2_vars,
    };

    let mut r: Vec<CommandSpec> = Vec::new();
    r.push(reset);
    r.push(account);
    r.push(token1);
    r.push(token2);
    proof {
        assert(string_views(r@[1].vars@) =~= seq!["account"@]);
        assert(string_views(r@[2].args@) =~= seq![
            "10000"@,
            "--name"@,
            "emunie"@,
            "--symbol"@,
            "EMT"@,
        ]);
        assert(string_views(r@[2].vars@) =~= seq!["token1"@]);
        assert(string_views(r@[3].args@) =~= seq![
            "10000"@,
            "--name"@,
            "gmunie"@,
            "--symbol"@,
            "GMT"@,
        ]);
        assert(string_views(r@[3].vars@) =~= seq!["token2"@]);
    }
    r
}

} // verus!
