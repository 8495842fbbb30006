//! The script pipeline: a named, ordered registry of transformation
//! scripts, applied sequentially to a captured request before forwarding.
//!
//! A script is an opaque executable unit: the pipeline assumes nothing
//! about it but its name and the text-in/text-out contract of `execute`.
//! Entries are keyed by script name (insertion overwrites), keep their
//! insertion order, and carry an argument string and an enabled flag; a
//! disabled entry stays registered but is skipped entirely.  The first
//! script failure aborts the whole pass: no partial application is ever
//! forwarded.

use vstd::prelude::*;

use crate::errors::{PipelineError, RegistryError};
use crate::text::str_eq;

verus! {

/// An opaque transformation unit, implemented by a pluggable provider.
///
/// `execute` must transform deterministically: what it returns is a
/// function of the request text and the argument string alone, named by
/// `exec_spec` (`None` marks the inputs on which the script fails).  The
/// pipeline relies on nothing else.
pub trait Script: Sized {
    /// The script's immutable name, under which it is registered.
    spec fn name_spec(&self) -> Seq<char>;

    /// What `execute` yields on each input, `None` where it fails.
    spec fn exec_spec(&self, raw: Seq<char>, args: Seq<char>) -> Option<Seq<char>>;

    /// The script's name, from its metadata.
    fn name(&self) -> (r: String)
        ensures
            r@ == self.name_spec(),
    ;

    /// Runs the script on one raw request text with one argument string.
    /// An `Err` carries the script runtime's account of the failure.
    fn execute(&self, raw: &str, args: &str) -> (r: Result<String, String>)
        ensures
            match r {
                Ok(out) => self.exec_spec(raw@, args@) == Some(out@),
                Err(_) => self.exec_spec(raw@, args@) is None,
            },
    ;
}

/// One registered script with its argument string and enabled flag.
pub struct ScriptEntry<S> {
    pub name: String,
    pub script: S,
    pub args: String,
    pub enabled: bool,
}

/// The shared registry: entries in insertion order, names unique.
pub struct Registry<S> {
    entries: Vec<ScriptEntry<S>>,
}

impl<S> View for Registry<S> {
    type V = Seq<ScriptEntry<S>>;

    closed spec fn view(&self) -> Seq<ScriptEntry<S>> {
        self.entries@
    }
}

/// Some entry carries this name.
pub open spec fn has_name<S>(es: Seq<ScriptEntry<S>>, name: Seq<char>) -> bool {
    exists|i: int| 0 <= i < es.len() && (#[trigger] es[i]).name@ == name
}

/// The position of the entry carrying this name (meaningful when
/// `has_name` holds; unique under `unique_names`).
pub open spec fn idx_of<S>(es: Seq<ScriptEntry<S>>, name: Seq<char>) -> int {
    choose|i: int| 0 <= i < es.len() && (#[trigger] es[i]).name@ == name
}

/// No two entries share a name.
pub open spec fn unique_names<S>(es: Seq<ScriptEntry<S>>) -> bool {
    forall|i: int, j: int|
        0 <= i < j < es.len() ==> (#[trigger] es[i]).name@ != (#[trigger] es[j]).name@
}

/// Under unique names, an entry's position is pinned by its name.
pub proof fn lemma_idx_of_unique<S>(es: Seq<ScriptEntry<S>>, i: int)
    requires
        unique_names(es),
        0 <= i < es.len(),
    ensures
        idx_of(es, es[i].name@) == i,
{
    let nm = es[i].name@;
    assert(has_name(es, nm));
    let j = idx_of(es, nm);
    if j < i {
        assert(es[j].name@ != es[i].name@);
    } else if j > i {
        assert(es[i].name@ != es[j].name@);
    }
}

/// What the whole pipeline yields on a raw request: each enabled entry, in
/// order, replaces the working text with its script's output; the first
/// failure makes the whole pass fail.
pub open spec fn pipeline_spec<S: Script>(es: Seq<ScriptEntry<S>>, raw: Seq<char>) -> Option<
    Seq<char>,
>
    decreases es.len(),
{
    if es.len() == 0 {
        Some(raw)
    } else if !es[0].enabled {
        pipeline_spec(es.drop_first(), raw)
    } else {
        match es[0].script.exec_spec(raw, es[0].args@) {
            None => None,
            Some(out) => pipeline_spec(es.drop_first(), out),
        }
    }
}

/// The name of the entry whose script fails the pass (meaningful when the
/// pipeline fails).
pub open spec fn pipeline_fail_name<S: Script>(es: Seq<ScriptEntry<S>>, raw: Seq<char>) -> Seq<
    char,
>
    decreases es.len(),
{
    if es.len() == 0 {
        Seq::empty()
    } else if !es[0].enabled {
        pipeline_fail_name(es.drop_first(), raw)
    } else {
        match es[0].script.exec_spec(raw, es[0].args@) {
            None => es[0].name@,
            Some(out) => pipeline_fail_name(es.drop_first(), out),
        }
    }
}

impl<S: Script> Registry<S> {
    /// Names are unique and each entry is registered under its script's
    /// own name.
    pub open spec fn wf(&self) -> bool {
        unique_names(self@) && forall|i: int|
            0 <= i < self@.len() ==> (#[trigger] self@[i]).name@ == self@[i].script.name_spec()
    }

    /// An empty registry.
    pub fn new() -> (r: Registry<S>)
        ensures
            r@ =~= Seq::<ScriptEntry<S>>::empty(),
            r.wf(),
    {
        Registry { entries: Vec::new() }
    }

    /// Position of the entry named `name`, if any.
    fn find_entry(&self, name: &str) -> (r: Option<usize>)
        ensures
            match r {
                Some(i) => i < self@.len() && self@[i as int].name@ == name@,
                None => !has_name(self@, name@),
            },
    {
        let n = self.entries.len();
        let mut i: usize = 0;
        while i < n
            invariant
                n == self@.len(),
                i <= n,
                forall|j: int| 0 <= j < i ==> (#[trigger] self@[j]).name@ != name@,
            decreases n - i,
        {
            if str_eq(self.entries[i].name.as_str(), name) {
                return Some(i);
            }
            i += 1;
        }
        None
    }

    /// Whether a script of that name is registered.
    pub fn has_script(&self, name: &str) -> (r: bool)
        ensures
            r == has_name(self@, name@),
    {
        self.find_entry(name).is_some()
    }

    /// Inserts the script under its own name, or replaces the entry of
    /// that name, enabled by default.
    pub fn add_script(&mut self, script: S, args: String)
        requires
            old(self).wf(),
        ensures
            final (self).wf(),
            ({
                let nm = script.name_spec();
                if has_name(old(self)@, nm) {
                    let i = idx_of(old(self)@, nm);
                    &&& final (self)@.len() == old(self)@.len()
                    &&& final (self)@[i].name@ == nm
                    &&& final (self)@[i].script == script
                    &&& final (self)@[i].args == args
                    &&& final (self)@[i].enabled
                    &&& forall|j: int|
                        0 <= j < old(self)@.len() && j != i ==> final (self)@[j] == old(self)@[j]
                } else {
                    final (self)@.len() == old(self)@.len() + 1 && final (self)@[old(
                        self,
                    )@.len() as int].name@ == nm && final (self)@[old(self)@.len() as int].script
                        == script && final (self)@[old(self)@.len() as int].args == args && final (
                    self)@[old(self)@.len() as int].enabled && forall|j: int|
                        0 <= j < old(self)@.len() ==> final (self)@[j] == old(self)@[j]
                }
            }),
    {
        let name = script.name();
        let entry = ScriptEntry { name, script, args, enabled: true };
        match self.find_entry(entry.name.as_str()) {
            Some(i) => {
                proof {
                    lemma_idx_of_unique(self@, i as int);
                }
                self.entries.set(i, entry);
            },
            None => {
                self.entries.push(entry);
            },
        }
    }

    /// Removes the entry of that name; reports whether one was there.  A
    /// missing name is an outcome, not an error.
    pub fn remove_script(&mut self, name: &str) -> (r: bool)
        requires
            old(self).wf(),
        ensures
            final (self).wf(),
            r == has_name(old(self)@, name@),
            r ==> final (self)@ == old(self)@.remove(idx_of(old(self)@, name@)),
            !r ==> final (self)@ == old(self)@,
    {
        match self.find_entry(name) {
            Some(i) => {
                proof {
                    lemma_idx_of_unique(self@, i as int);
                }
                self.entries.remove(i);
                true
            },
            None => false,
        }
    }

    /// Updates argument string and enabled flag of the entry of that name.
    /// Fails with `NotRegistered` if the name is absent, and then changes
    /// nothing: an update never inserts an entry.
    pub fn update_script(&mut self, name: &str, args: String, enabled: bool) -> (r: Result<
        (),
        RegistryError,
    >)
        requires
            old(self).wf(),
        ensures
            final (self).wf(),
            !has_name(old(self)@, name@) ==> r == Err::<(), RegistryError>(
                RegistryError::NotRegistered,
            ) && final (self)@ == old(self)@,
            has_name(old(self)@, name@) ==> ({
                let i = idx_of(old(self)@, name@);
                &&& r is Ok
                &&& final (self)@.len() == old(self)@.len()
                &&& final (self)@[i].name == old(self)@[i].name
                &&& final (self)@[i].script == old(self)@[i].script
                &&& final (self)@[i].args == args
                &&& final (self)@[i].enabled == enabled
                &&& forall|j: int|
                    0 <= j < old(self)@.len() && j != i ==> final (self)@[j] == old(self)@[j]
            }),
    {
        match self.find_entry(name) {
            Some(i) => {
                proof {
                    lemma_idx_of_unique(self@, i as int);
                }
                let old_entry = self.entries.remove(i);
                let entry = ScriptEntry {
                    name: old_entry.name,
                    script: old_entry.script,
                    args,
                    enabled,
                };
                self.entries.insert(i, entry);
                proof {
                    assert(final (self)@ =~= old(self)@.update(
                        i as int,
                        final (self)@[i as int],
                    ));
                }
                Ok(())
            },
            None => Err(RegistryError::NotRegistered),
        }
    }

    /// Runs exactly one named script on a request, irrespective of
    /// pipeline order.  A disabled script yields empty output; an absent
    /// name fails with `NotRegistered`.
    pub fn run_script(&self, name: &str, request: String) -> (r: Result<String, RegistryError>)
        requires
            self.wf(),
        ensures
            !has_name(self@, name@) ==> r == Err::<String, RegistryError>(
                RegistryError::NotRegistered,
            ),
            has_name(self@, name@) ==> ({
                let e = self@[idx_of(self@, name@)];
                if !e.enabled {
                    r is Ok && r->Ok_0@ == Seq::<char>::empty()
                } else {
                    match e.script.exec_spec(request@, e.args@) {
                        Some(out) => r is Ok && r->Ok_0@ == out,
                        None => r matches Err(RegistryError::ScriptFailed { name: n, cause: _ })
                            && n@ == name@,
                    }
                }
            }),
    {
        match self.find_entry(name) {
            Some(i) => {
                proof {
                    lemma_idx_of_unique(self@, i as int);
                }
                let entry = &self.entries[i];
                if entry.enabled {
                    match entry.script.execute(request.as_str(), entry.args.as_str()) {
                        Ok(out) => Ok(out),
                        Err(cause) => Err(
                            RegistryError::ScriptFailed { name: entry.name.clone(), cause },
                        ),
                    }
                } else {
                    Ok(String::new())
                }
            },
            None => Err(RegistryError::NotRegistered),
        }
    }

    /// Applies every enabled script, in insertion order, to the raw
    /// request, each one transforming the output of the one before.  The
    /// first failure aborts the pass and names the script that failed.
    pub fn apply(&self, raw_request: String) -> (r: Result<String, PipelineError>)
        ensures
            match r {
                Ok(out) => pipeline_spec(self@, raw_request@) == Some(out@),
                Err(e) => pipeline_spec(self@, raw_request@) is None && e.script@
                    == pipeline_fail_name(self@, raw_request@),
            },
    {
        let n = self.entries.len();
        let mut cur = raw_request;
        let ghost raw0 = cur@;
        let mut i: usize = 0;
        proof {
            assert(self@.skip(0) =~= self@);
        }
        while i < n
            invariant
                n == self@.len(),
                i <= n,
                raw0 == raw_request@,
                pipeline_spec(self@, raw0) == pipeline_spec(self@.skip(i as int), cur@),
                pipeline_spec(self@, raw0) is None ==> pipeline_fail_name(self@, raw0)
                    == pipeline_fail_name(self@.skip(i as int), cur@),
            decreases n - i,
        {
            let ghost rest = self@.skip(i as int);
            proof {
                assert(rest[0] == self@[i as int]);
                assert(rest.drop_first() =~= self@.skip(i + 1));
            }
            let entry = &self.entries[i];
            if entry.enabled {
                match entry.script.execute(cur.as_str(), entry.args.as_str()) {
                    Ok(out) => {
                        cur = out;
                    },
                    Err(cause) => {
                        proof {
                            assert(pipeline_spec(rest, cur@) is None);
                            assert(pipeline_fail_name(rest, cur@) == self@[i as int].name@);
                        }
                        return Err(PipelineError { script: entry.name.clone(), cause });
                    },
                }
            }
            i += 1;
        }
        proof {
            assert(self@.skip(n as int) =~= Seq::<ScriptEntry<S>>::empty());
        }
        Ok(cur)
    }
}

/// Law: a disabled entry leaves the pipeline's result byte-for-byte the
/// same as removing that entry from an otherwise identical registry.
pub proof fn lemma_disabled_is_removed<S: Script>(es: Seq<ScriptEntry<S>>, i: int, raw: Seq<char>)
    requires
        0 <= i < es.len(),
        !es[i].enabled,
    ensures
        pipeline_spec(es, raw) == pipeline_spec(es.remove(i), raw),
    decreases es.len(),
{
    if i == 0 {
        assert(es.remove(0) =~= es.drop_first());
    } else {
        assert(es.remove(i)[0] == es[0]);
        assert(es.remove(i).drop_first() =~= es.drop_first().remove(i - 1));
        if !es[0].enabled {
            lemma_disabled_is_removed(es.drop_first(), i - 1, raw);
        } else {
            match es[0].script.exec_spec(raw, es[0].args@) {
                None => {
                    if es.remove(i).len() == 0 {
                    }
                },
                Some(out) => {
                    lemma_disabled_is_removed(es.drop_first(), i - 1, out);
                },
            }
        }
    }
}

/// Law: the pipeline is sequential.  Running the registry `a + b` in one
/// pass equals running `a` first and handing its output to `b`.
pub proof fn lemma_pipeline_sequential<S: Script>(
    a: Seq<ScriptEntry<S>>,
    b: Seq<ScriptEntry<S>>,
    raw: Seq<char>,
)
    ensures
        pipeline_spec(a + b, raw) == (match pipeline_spec(a, raw) {
            Some(mid) => pipeline_spec(b, mid),
            None => None,
        }),
    decreases a.len(),
{
    if a.len() == 0 {
        assert(a + b =~= b);
    } else {
        assert((a + b)[0] == a[0]);
        assert((a + b).drop_first() =~= a.drop_first() + b);
        if !a[0].enabled {
            lemma_pipeline_sequential(a.drop_first(), b, raw);
        } else {
            match a[0].script.exec_spec(raw, a[0].args@) {
                None => {
                },
                Some(out) => {
                    lemma_pipeline_sequential(a.drop_first(), b, out);
                },
            }
        }
    }
}

/// A built-in sample script: appends its argument string to the request
/// text and never fails.  Useful for exercising the pipeline end to end.
pub struct AppendScript {
    pub label: String,
}

impl Script for AppendScript {
    open spec fn name_spec(&self) -> Seq<char> {
        self.label@
    }

    open spec fn exec_spec(&self, raw: Seq<char>, args: Seq<char>) -> Option<Seq<char>> {
        Some(raw + args)
    }

    fn name(&self) -> (r: String) {
        self.label.clone()
    }

    fn execute(&self, raw: &str, args: &str) -> (r: Result<String, String>) {
        let mut out = raw.to_owned();
        out.append(args);
        Ok(out)
    }
}

/// A built-in sample script that refuses every request: its failure aborts
/// a pipeline pass.  Useful for exercising failure isolation.
pub struct RefuseScript {
    pub label: String,
}

impl Script for RefuseScript {
    open spec fn name_spec(&self) -> Seq<char> {
        self.label@
    }

    open spec fn exec_spec(&self, raw: Seq<char>, args: Seq<char>) -> Option<Seq<char>> {
        None
    }

    fn name(&self) -> (r: String) {
        self.label.clone()
    }

    fn execute(&self, raw: &str, args: &str) -> (r: Result<String, String>) {
        Err(String::from_str("script refused the request"))
    }
}

} // verus!
