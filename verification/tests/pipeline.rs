use revup::config::default_config;
use revup::env_store::{render_binding, EnvStore};
use revup::extract::ExtractError;
use revup::pipeline::{run_all, run_reset, CommandSpec, Pipeline, RunError};

fn cmd(command: &str, args: &[&str], vars: &[&str]) -> CommandSpec {
    CommandSpec {
        command: command.to_string(),
        args: args.iter().map(|a| a.to_string()).collect(),
        vars: vars.iter().map(|v| v.to_string()).collect(),
    }
}

#[test]
fn empty_command_list_succeeds_with_empty_store() {
    let mut store = EnvStore::new();
    let r = run_all(&Vec::new(), &Vec::new(), &mut store);
    assert_eq!(r, Ok(()));
    assert_eq!(store.count(), 0);
    assert_eq!(store.render(), "");
}

#[test]
fn no_vars_means_no_extraction_and_no_bindings() {
    let cmds = vec![cmd("reset", &[], &[])];
    let outs = vec![String::from("output without any marker at all")];
    let mut store = EnvStore::new();
    let r = run_all(&cmds, &outs, &mut store);
    assert_eq!(r, Ok(()));
    assert_eq!(store.count(), 0);
}

#[test]
fn missing_marker_aborts_with_extraction_error() {
    let cmds = vec![cmd("new-account", &[], &["account"])];
    let outs = vec![String::from("no entity block here")];
    let mut store = EnvStore::new();
    let r = run_all(&cmds, &outs, &mut store);
    assert_eq!(
        r,
        Err(RunError { index: 0, error: ExtractError::NotFound })
    );
    assert_eq!(store.count(), 0);
}

#[test]
fn bindings_are_written_in_order() {
    let cmds = vec![cmd("publish", &["."], &["a", "b"])];
    let outs = vec![String::from(
        "New Entities\n└─ Component: addr1 extra\n└─ Package: addr2 extra",
    )];
    let mut store = EnvStore::new();
    let r = run_all(&cmds, &outs, &mut store);
    assert_eq!(r, Ok(()));
    assert_eq!(store.count(), 2);
    assert_eq!(store.get(0).name, "a");
    assert_eq!(store.get(0).value, "addr1");
    assert_eq!(store.get(1).name, "b");
    assert_eq!(store.get(1).value, "addr2");
    assert_eq!(store.render(), "a=addr1\nb=addr2\n");
}

#[test]
fn surplus_vars_are_truncated_without_error() {
    let cmds = vec![cmd("publish", &[], &["a", "b", "c"])];
    let outs = vec![String::from(
        "New Entities\n└─ Component: addr1 x\n└─ Package: addr2 y\n",
    )];
    let mut store = EnvStore::new();
    let r = run_all(&cmds, &outs, &mut store);
    assert_eq!(r, Ok(()));
    assert_eq!(store.render(), "a=addr1\nb=addr2\n");
}

#[test]
fn surplus_entities_are_truncated_without_error() {
    let cmds = vec![cmd("publish", &[], &["only"])];
    let outs = vec![String::from(
        "New Entities\n└─ Component: addr1 x\n└─ Package: addr2 y\n",
    )];
    let mut store = EnvStore::new();
    let r = run_all(&cmds, &outs, &mut store);
    assert_eq!(r, Ok(()));
    assert_eq!(store.render(), "only=addr1\n");
}

#[test]
fn second_run_replaces_store_content() {
    let cmds = vec![
        cmd("new-account", &[], &["account"]),
        cmd("reset", &[], &[]),
    ];
    let outs = vec![
        String::from("New Entities\n└─ Component: acct7 balance"),
        String::from("simulator reset"),
    ];
    let mut store = EnvStore::new();
    // The store starts with leftover content from elsewhere.
    store.append(revup::env_store::Binding {
        name: String::from("stale"),
        value: String::from("junk"),
    });
    assert_eq!(run_all(&cmds, &outs, &mut store), Ok(()));
    let first = store.render();
    assert_eq!(run_all(&cmds, &outs, &mut store), Ok(()));
    let second = store.render();
    assert_eq!(first, "account=acct7\n");
    assert_eq!(second, first);
}

#[test]
fn abort_keeps_bindings_of_prior_commands_only() {
    let cmds = vec![
        cmd("new-account", &[], &["account"]),
        cmd("publish", &["."], &["package"]),
        cmd("new-account", &[], &["other"]),
    ];
    let outs = vec![
        String::from("New Entities\n└─ Component: acct1 extra"),
        String::from("publish failed, nothing created"),
        String::from("New Entities\n└─ Component: acct2 extra"),
    ];
    let mut store = EnvStore::new();
    let r = run_all(&cmds, &outs, &mut store);
    assert_eq!(
        r,
        Err(RunError { index: 1, error: ExtractError::NotFound })
    );
    assert_eq!(store.render(), "account=acct1\n");
}

#[test]
fn pipeline_feed_drives_commands_in_order() {
    let cmds = vec![
        cmd("reset", &[], &[]),
        cmd("new-account", &[], &["account"]),
    ];
    let mut p = Pipeline::new(cmds);
    assert_eq!(p.current().unwrap().command, "reset");
    let r0 = p.feed(String::from("simulator state wiped")).unwrap();
    assert!(r0.is_empty());
    assert_eq!(p.current().unwrap().command, "new-account");
    let r1 = p
        .feed(String::from("New Entities\n└─ Component: acct9 extra"))
        .unwrap();
    assert_eq!(r1.len(), 1);
    assert_eq!(r1[0].name, "account");
    assert_eq!(r1[0].value, "acct9");
    assert!(p.current().is_none());
    assert_eq!(p.store.render(), "account=acct9\n");
}

#[test]
fn pipeline_feed_aborts_on_extraction_failure() {
    let cmds = vec![
        cmd("new-account", &[], &["account"]),
        cmd("reset", &[], &[]),
    ];
    let mut p = Pipeline::new(cmds);
    let r = p.feed(String::from("no block printed"));
    assert_eq!(r, Err(ExtractError::NotFound));
    assert!(p.aborted);
    assert!(p.current().is_none());
    assert_eq!(p.store.count(), 0);
}

#[test]
fn default_config_lists_the_four_commands() {
    let cmds = default_config();
    assert_eq!(cmds.len(), 4);
    assert_eq!(cmds[0].command, "reset");
    assert!(cmds[0].args.is_empty());
    assert!(cmds[0].vars.is_empty());
    assert_eq!(cmds[1].command, "new-account");
    assert!(cmds[1].args.is_empty());
    assert_eq!(cmds[1].vars, vec!["account".to_string()]);
    assert_eq!(cmds[2].command, "new-resource-fixed");
    assert_eq!(
        cmds[2].args,
        vec!["10000", "--name", "emunie", "--symbol", "EMT"]
            .into_iter()
            .map(String::from)
            .collect::<Vec<String>>()
    );
    assert_eq!(cmds[2].vars, vec!["token1".to_string()]);
    assert_eq!(cmds[3].command, "new-resource-fixed");
    assert_eq!(
        cmds[3].args,
        vec!["10000", "--name", "gmunie", "--symbol", "GMT"]
            .into_iter()
            .map(String::from)
            .collect::<Vec<String>>()
    );
    assert_eq!(cmds[3].vars, vec!["token2".to_string()]);
}

#[test]
fn rebinding_a_name_appends_a_duplicate_line() {
    let cmds = vec![cmd("publish", &[], &["a", "a"])];
    let outs = vec![String::from(
        "New Entities\n└─ Component: addr1 x\n└─ Package: addr2 y\n",
    )];
    let mut store = EnvStore::new();
    assert_eq!(run_all(&cmds, &outs, &mut store), Ok(()));
    assert_eq!(store.render(), "a=addr1\na=addr2\n");
}

#[test]
fn render_binding_writes_one_line() {
    assert_eq!(render_binding("account", "acct12"), "account=acct12\n");
}

#[test]
fn run_reset_is_a_no_op() {
    run_reset();
}
