//! The command pipeline: the ordered command list, the binding each command's
//! captured output produces, and the forward-only run that accumulates the
//! environment store and aborts at the first extraction failure.
//!
//! The pipeline never spawns a process itself: the surrounding binary runs
//! the external tool for the command the pipeline asks for and feeds the
//! captured output back, one command at a time. Every decision — which
//! bindings to write, whether to abort — is taken here.

use vstd::prelude::*;

use crate::env_store::{binding_views, Binding, EnvStore};
use crate::extract::{extract_spec, marker, walk_entities, ExtractError};
use crate::text::{lemma_rfind_is_last, occurs_at, rfind};

verus! {

/// One declarative step: an external subcommand, its arguments, and the
/// variable names its extracted entities are bound to, in order. `vars` may
/// be empty, and its length may differ from the number of entities the
/// command produces; binding pairs positionally and stops at the shorter
/// list.
pub struct CommandSpec {
    pub command: String,
    pub args: Vec<String>,
    pub vars: Vec<String>,
}

/// The views of a list of strings.
pub open spec fn string_views(v: Seq<String>) -> Seq<Seq<char>> {
    v.map_values(|t: String| t@)
}

/// Pairs variable names with entity identifiers positionally, truncating to
/// the shorter list.
pub open spec fn zip_bind(vars: Seq<Seq<char>>, ents: Seq<Seq<char>>) -> Seq<
    (Seq<char>, Seq<char>),
> {
    let n = if vars.len() <= ents.len() {
        vars.len()
    } else {
        ents.len()
    };
    Seq::new(n, |i: int| (vars[i], ents[i]))
}

/// The bindings one command's captured output produces: none when the
/// command declares no variables, the positional pairing with the extracted
/// entities otherwise, and the extraction error when extraction fails.
pub open spec fn step_spec(cmd: CommandSpec, out: Seq<char>) -> Result<
    Seq<(Seq<char>, Seq<char>)>,
    ExtractError,
> {
    if cmd.vars@.len() == 0 {
        Ok(Seq::empty())
    } else {
        match extract_spec(out) {
            Err(e) => Err(e),
            Ok(es) => Ok(zip_bind(string_views(cmd.vars@), es)),
        }
    }
}

/// A whole run from command `i` on, over the captured outputs `outs`: the
/// bindings written in order, and the position and kind of the first
/// extraction failure, if any. Commands after a failure contribute nothing.
pub open spec fn run_from(cmds: Seq<CommandSpec>, outs: Seq<Seq<char>>, i: int) -> (
    Seq<(Seq<char>, Seq<char>)>,
    Option<(int, ExtractError)>,
)
    decreases cmds.len() - i,
{
    if i < 0 || i >= cmds.len() || i >= outs.len() {
        (Seq::empty(), None)
    } else {
        match step_spec(cmds[i], outs[i]) {
            Err(e) => (Seq::empty(), Some((i, e))),
            Ok(bs) => {
                let rest = run_from(cmds, outs, i + 1);
                (bs + rest.0, rest.1)
            },
        }
    }
}

/// A whole run over the command list: bindings in order, and the first
/// failure, if any.
pub open spec fn run_spec(cmds: Seq<CommandSpec>, outs: Seq<Seq<char>>) -> (
    Seq<(Seq<char>, Seq<char>)>,
    Option<(int, ExtractError)>,
) {
    run_from(cmds, outs, 0)
}

/// A run-level failure: the position of the command whose extraction failed,
/// and the extraction error itself.
#[derive(Clone, Copy, Debug, PartialEq, Eq, Structural)]
pub struct RunError {
    pub index: usize,
    pub error: ExtractError,
}

/// Computes the bindings one command's captured output produces, as
/// `step_spec` describes: nothing when no variables are declared, the
/// positional pairing with the extracted entities otherwise, truncated to
/// the shorter list.
pub fn process_output(cmd: &CommandSpec, stdout: String) -> (r: Result<Vec<Binding>, ExtractError>)
    ensures
        match step_spec(*cmd, stdout@) {
            Ok(bs) => r is Ok && binding_views(r->Ok_0@) == bs,
            Err(e) => r is Err && r->Err_0 == e,
        },
{
    if cmd.vars.len() == 0 {
        let empty: Vec<Binding> = Vec::new();
        proof {
            assert(binding_views(empty@) =~= Seq::<(Seq<char>, Seq<char>)>::empty());
        }
        return Ok(empty);
    }
    match walk_entities(stdout) {
        Err(e) => Err(e),
        Ok(ents) => {
            let n: usize = if cmd.vars.len() <= ents.len() {
                cmd.vars.len()
            } else {
                ents.len()
            };
            let ghost target = zip_bind(
                string_views(cmd.vars@),
                ents@.map_values(|t: String| t@),
            );
            let mut bs: Vec<Binding> = Vec::new();
            let mut i: usize = 0;
            proof {
                assert(binding_views(bs@) =~= target.take(0));
            }
            while i < n
                invariant
                    i <= n,
                    n == target.len(),
                    n <= cmd.vars@.len(),
                    n <= ents@.len(),
                    target == zip_bind(string_views(cmd.vars@), ents@.map_values(|t: String| t@)),
                    binding_views(bs@) == target.take(i as int),
                decreases n - i,
            {
                let ghost pre = binding_views(bs@);
                let b = Binding {
                    name: cmd.vars[i].clone(),
                    value: ents[i].clone(),
                };
                proof {
                    assert(string_views(cmd.vars@)[i as int] == cmd.vars@[i as int]@);
                    assert(ents@.map_values(|t: String| t@)[i as int] == ents@[i as int]@);
                    assert(b@ == target[i as int]);
                }
                bs.push(b);
                proof {
                    assert(binding_views(bs@) =~= pre.push(target[i as int]));
                    assert(target.take(i + 1) =~= target.take(i as int).push(target[i as int]));
                }
                i += 1;
            }
            proof {
                assert(target.take(n as int) =~= target);
            }
            Ok(bs)
        },
    }
}

/// Feeding one more captured output to a run that has not failed appends the
/// new command's bindings (or records its failure) and touches nothing else.
pub proof fn lemma_run_from_push(cmds: Seq<CommandSpec>, outs: Seq<Seq<char>>, o: Seq<char>, i: int)
    requires
        0 <= i <= outs.len(),
        outs.len() < cmds.len(),
        run_from(cmds, outs, i).1 is None,
    ensures
        run_from(cmds, outs.push(o), i) == match step_spec(cmds[outs.len() as int], o) {
            Ok(bs) => (run_from(cmds, outs, i).0 + bs, None::<(int, ExtractError)>),
            Err(e) => (run_from(cmds, outs, i).0, Some((outs.len() as int, e))),
        },
    decreases outs.len() - i,
{
    if i == outs.len() {
        assert(run_from(cmds, outs, i) == (
            Seq::<(Seq<char>, Seq<char>)>::empty(),
            None::<(int, ExtractError)>,
        ));
        assert(outs.push(o)[i] == o);
        match step_spec(cmds[i], o) {
            Ok(bs) => {
                assert(run_from(cmds, outs.push(o), i + 1) == (
                    Seq::<(Seq<char>, Seq<char>)>::empty(),
                    None::<(int, ExtractError)>,
                ));
                assert(bs + Seq::<(Seq<char>, Seq<char>)>::empty() =~= Seq::<(
                    Seq<char>,
                    Seq<char>,
                )>::empty() + bs);
            },
            Err(e) => {},
        }
    } else {
        assert(outs.push(o)[i] == outs[i]);
        match step_spec(cmds[i], outs[i]) {
            Ok(bs) => {
                lemma_run_from_push(cmds, outs, o, i + 1);
                match step_spec(cmds[outs.len() as int], o) {
                    Ok(nb) => {
                        assert(bs + (run_from(cmds, outs, i + 1).0 + nb) =~= (bs + run_from(
                            cmds,
                            outs,
                            i + 1,
                        ).0) + nb);
                    },
                    Err(e) => {},
                }
            },
            Err(e) => {
                assert(run_from(cmds, outs, i).1 is Some);
            },
        }
    }
}

proof fn lemma_run_from_abort(cmds: Seq<CommandSpec>, outs: Seq<Seq<char>>, i: int, k: int, e: ExtractError)
    requires
        0 <= i,
        run_from(cmds, outs, i).1 == Some((k, e)),
    ensures
        i <= k < cmds.len() && k < outs.len(),
        step_spec(cmds[k], outs[k]) is Err && step_spec(cmds[k], outs[k])->Err_0 == e,
        run_from(cmds, outs, i).0 == run_from(cmds.take(k), outs, i).0,
        run_from(cmds.take(k), outs, i).1 is None,
    decreases cmds.len() - i,
{
    if i >= cmds.len() || i >= outs.len() {
        assert(false);
    } else {
        match step_spec(cmds[i], outs[i]) {
            Err(e0) => {
                assert(k == i && e0 == e);
                assert(run_from(cmds.take(k), outs, i).1 is None);
            },
            Ok(bs) => {
                lemma_run_from_abort(cmds, outs, i + 1, k, e);
                assert(cmds.take(k)[i] == cmds[i]);
                assert(run_from(cmds.take(k), outs, i).0 == bs + run_from(cmds.take(k), outs, i + 1).0);
            },
        }
    }
}

/// An aborting run writes exactly the bindings of the commands strictly
/// before the failing one: the failing command's extraction error is the
/// run's error, and no binding of that command or a later one appears.
pub proof fn lemma_abort_keeps_prior_bindings(
    cmds: Seq<CommandSpec>,
    outs: Seq<Seq<char>>,
    k: int,
    e: ExtractError,
)
    requires
        run_spec(cmds, outs).1 == Some((k, e)),
    ensures
        0 <= k < cmds.len() && k < outs.len(),
        step_spec(cmds[k], outs[k]) is Err && step_spec(cmds[k], outs[k])->Err_0 == e,
        run_spec(cmds, outs).0 == run_spec(cmds.take(k), outs).0,
        run_spec(cmds.take(k), outs).1 is None,
{
    lemma_run_from_abort(cmds, outs, 0, k, e);
}

/// An empty command list runs successfully and writes nothing, whatever
/// outputs are at hand.
pub proof fn lemma_empty_run(outs: Seq<Seq<char>>)
    ensures
        run_spec(Seq::<CommandSpec>::empty(), outs).0 == Seq::<(Seq<char>, Seq<char>)>::empty(),
        run_spec(Seq::<CommandSpec>::empty(), outs).1 is None,
{
}

/// A command that declares no variables extracts nothing and writes no
/// binding, whatever its captured output holds.
pub proof fn lemma_no_vars_no_bindings(cmd: CommandSpec, out: Seq<char>)
    requires
        cmd.vars@.len() == 0,
    ensures
        step_spec(cmd, out) is Ok,
        step_spec(cmd, out)->Ok_0 == Seq::<(Seq<char>, Seq<char>)>::empty(),
{
}

/// A command that declares variables fails with `NotFound` when the marker
/// occurs nowhere in its captured output, so no binding is written for it.
pub proof fn lemma_no_marker_aborts(cmd: CommandSpec, out: Seq<char>)
    requires
        cmd.vars@.len() > 0,
        forall|j: int| !occurs_at(out, marker(), j),
    ensures
        step_spec(cmd, out) is Err,
        step_spec(cmd, out)->Err_0 == ExtractError::NotFound,
{
    lemma_rfind_is_last(out, marker());
    assert(rfind(out, marker()) is None);
}

/// Truncation: when extraction succeeds for a command that declares
/// variables, pairing stops at the shorter of the variable list and the
/// entity list, pairs positionally, and the surplus on either side raises no
/// error.
pub proof fn lemma_truncation(cmd: CommandSpec, out: Seq<char>)
    requires
        cmd.vars@.len() > 0,
        extract_spec(out) is Ok,
    ensures
        step_spec(cmd, out) is Ok,
        step_spec(cmd, out)->Ok_0.len() == if cmd.vars@.len() <= extract_spec(out)->Ok_0.len() {
            cmd.vars@.len() as int
        } else {
            extract_spec(out)->Ok_0.len() as int
        },
        forall|i: int|
            0 <= i < step_spec(cmd, out)->Ok_0.len() ==> step_spec(cmd, out)->Ok_0[i] == (
                cmd.vars@[i]@,
                extract_spec(out)->Ok_0[i],
            ),
{
}

/// Runs the whole command list against the captured outputs `outs`, one per
/// command: the store is reset first, then each command's bindings are
/// appended in order until the list ends or an extraction fails. The final
/// store content is a function of the commands and outputs alone — whatever
/// the store held before the run is discarded, so a repeated run leaves the
/// store exactly as the first one did.
pub fn run_all(cmds: &Vec<CommandSpec>, outs: &Vec<String>, store: &mut EnvStore) -> (r: Result<
    (),
    RunError,
>)
    requires
        outs@.len() == cmds@.len(),
    ensures
        final(store)@ == run_spec(cmds@, string_views(outs@)).0,
        match r {
            Ok(_) => run_spec(cmds@, string_views(outs@)).1 is None,
            Err(re) => run_spec(cmds@, string_views(outs@)).1 == Some((re.index as int, re.error)),
        },
{
    let ghost ovs = string_views(outs@);
    store.reset();
    let mut i: usize = 0;
    proof {
        assert(run_spec(cmds@, ovs).0 =~= store@ + run_from(cmds@, ovs, 0).0);
    }
    while i < cmds.len()
        invariant
            outs@.len() == cmds@.len(),
            i <= cmds@.len(),
            ovs == string_views(outs@),
            run_spec(cmds@, ovs).0 == store@ + run_from(cmds@, ovs, i as int).0,
            run_spec(cmds@, ovs).1 == run_from(cmds@, ovs, i as int).1,
        decreases cmds@.len() - i,
    {
        let out = outs[i].clone();
        proof {
            assert(ovs[i as int] == outs@[i as int]@);
        }
        match process_output(&cmds[i], out) {
            Ok(bs) => {
                let ghost pre = store@;
                store.append_all(&bs);
                proof {
                    assert(run_from(cmds@, ovs, i as int).0 == binding_views(bs@) + run_from(
                        cmds@,
                        ovs,
                        i + 1,
                    ).0);
                    assert(pre + (binding_views(bs@) + run_from(cmds@, ovs, i + 1).0) =~= (pre
                        + binding_views(bs@)) + run_from(cmds@, ovs, i + 1).0);
                }
                i += 1;
            },
            Err(e) => {
                proof {
                    assert(run_from(cmds@, ovs, i as int) == (
                        Seq::<(Seq<char>, Seq<char>)>::empty(),
                        Some((i as int, e)),
                    ));
                    assert(store@ + Seq::<(Seq<char>, Seq<char>)>::empty() =~= store@);
                }
                return Err(RunError { index: i, error: e });
            },
        }
    }
    proof {
        assert(run_from(cmds@, ovs, cmds@.len() as int) == (
            Seq::<(Seq<char>, Seq<char>)>::empty(),
            None::<(int, ExtractError)>,
        ));
        assert(store@ + Seq::<(Seq<char>, Seq<char>)>::empty() =~= store@);
    }
    Ok(())
}

/// The interactive simulator-reset flow. The ledger tool's own `reset` and
/// `new-account` commands cover it through the default command list, so this
/// entry performs no pipeline work of its own.
pub fn run_reset() {
}

/// The pipeline driver: holds the command list, the number of commands
/// processed so far, the store of bindings written, and whether the run has
/// aborted. The surrounding binary asks for the current command, runs the
/// external tool, and feeds the captured output back.
pub struct Pipeline {
    pub commands: Vec<CommandSpec>,
    pub position: usize,
    pub aborted: bool,
    pub store: EnvStore,
    pub history: Ghost<Seq<Seq<char>>>,
}

impl Pipeline {
    /// The driver's invariant: the store holds exactly the bindings that a
    /// run over the outputs fed so far produces, and `aborted` records
    /// whether that run failed.
    pub open spec fn wf(self) -> bool {
        &&& self.position <= self.commands@.len()
        &&& self.history@.len() == self.position
        &&& self.store@ == run_spec(self.commands@, self.history@).0
        &&& (self.aborted <==> run_spec(self.commands@, self.history@).1 is Some)
    }

    /// A fresh run over `commands`: nothing processed, the store empty.
    pub fn new(commands: Vec<CommandSpec>) -> (p: Pipeline)
        ensures
            p.wf(),
            p.commands@ == commands@,
            p.position == 0,
            !p.aborted,
            p.store@ == Seq::<(Seq<char>, Seq<char>)>::empty(),
            p.history@ == Seq::<Seq<char>>::empty(),
    {
        let p = Pipeline {
            commands,
            position: 0,
            aborted: false,
            store: EnvStore::new(),
            history: Ghost(Seq::empty()),
        };
        p
    }

    /// The command to run next, or `None` when the run is over — every
    /// command processed, or an earlier extraction failed.
    pub fn current(&self) -> (r: Option<&CommandSpec>)
        ensures
            match r {
                Some(c) => !self.aborted && self.position < self.commands@.len() && *c
                    == self.commands@[self.position as int],
                None => self.aborted || self.position >= self.commands@.len(),
            },
    {
        if self.aborted || self.position >= self.commands.len() {
            None
        } else {
            Some(&self.commands[self.position])
        }
    }

    /// Feeds the captured output of the current command: its bindings are
    /// appended to the store and returned for the caller to persist, or the
    /// extraction error is recorded and the run aborts.
    pub fn feed(&mut self, stdout: String) -> (r: Result<Vec<Binding>, ExtractError>)
        requires
            old(self).wf(),
            !old(self).aborted,
            old(self).position < old(self).commands@.len(),
        ensures
            final(self).wf(),
            final(self).commands@ == old(self).commands@,
            final(self).position == old(self).position + 1,
            final(self).history@ == old(self).history@.push(stdout@),
            match step_spec(old(self).commands@[old(self).position as int], stdout@) {
                Ok(bs) => {
                    &&& r is Ok
                    &&& binding_views(r->Ok_0@) == bs
                    &&& !final(self).aborted
                    &&& final(self).store@ == old(self).store@ + bs
                },
                Err(e) => {
                    &&& r is Err
                    &&& r->Err_0 == e
                    &&& final(self).aborted
                    &&& final(self).store@ == old(self).store@
                },
            },
    {
        let ghost out_view = stdout@;
        let ghost old_hist = self.history@;
        let _total: usize = self.commands.len();
        let idx = self.position;
        let r = process_output(&self.commands[idx], stdout);
        proof {
            lemma_run_from_push(self.commands@, old_hist, out_view, 0);
        }
        match r {
            Ok(bs) => {
                self.store.append_all(&bs);
                self.position = idx + 1;
                self.history = Ghost(old_hist.push(out_view));
                Ok(bs)
            },
            Err(e) => {
                self.aborted = true;
                self.position = idx + 1;
                self.history = Ghost(old_hist.push(out_view));
                Err(e)
            },
        }
    }
}

} // verus!

