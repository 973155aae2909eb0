//! The process argv and its expanded form.
//!
//! The expanded argv is the argv after flagfile processing: every
//! argument knows whether it was written inline on the command line or
//! came from a flagfile, and through which chain of flagfile inclusions.
//! Sanitizing strips arguments that may hold sensitive values.

use std::sync::Arc;

use vstd::prelude::*;

verus! {

/// Where a flagfile came from.
#[derive(Debug)]
pub enum ArgFileKind {
    PythonExecutable(String, Option<String>),
    Path(String),
    Stdin,
}

/// A flagfile an argument came from, with the flagfile that included it.
#[derive(Debug)]
pub struct FlagfileArgSource {
    pub kind: ArgFileKind,
    pub parent: Option<Arc<FlagfileArgSource>>,
}

/// Where an expanded argument came from.
#[derive(Debug)]
pub enum ExpandedArgSource {
    Inline,
    Flagfile(Arc<FlagfileArgSource>),
}

/// One expanded argument and its origin.
pub struct ExpandedArg {
    pub value: String,
    pub source: ExpandedArgSource,
}

/// The argv after flagfile expansion.
pub struct ExpandedArgv {
    pub args: Vec<ExpandedArg>,
}

/// The bare argv and the expanded argv.
pub struct Argv {
    pub argv: Vec<String>,
    pub expanded_argv: ExpandedArgv,
}

/// The argv after stripping possibly sensitive arguments.
pub struct SanitizedArgv {
    pub argv: Vec<String>,
    pub expanded_argv: ExpandedArgv,
}

impl View for ExpandedArgv {
    type V = Seq<Seq<char>>;

    /// An expanded argv views as its argument strings, in order.
    open spec fn view(&self) -> Seq<Seq<char>> {
        arg_values(self.args@)
    }
}

/// Whether a string occurs in a list of strings, by content.
pub open spec fn occurs_in(needle: Seq<char>, hay: Seq<Seq<char>>) -> bool {
    exists|i: int| 0 <= i < hay.len() && hay[i] == needle
}

/// The contents of a list of expanded arguments.
pub open spec fn arg_values(args: Seq<ExpandedArg>) -> Seq<Seq<char>> {
    args.map(|i: int, a: ExpandedArg| a.value@)
}

/// The contents of a list of strings.
pub open spec fn str_values(ss: Seq<String>) -> Seq<Seq<char>> {
    ss.map(|i: int, s: String| s@)
}

/// The strings that survive redaction: those whose content does not
/// occur in the redaction list, in order.
pub open spec fn redact_values(vals: Seq<Seq<char>>, red: Seq<Seq<char>>) -> Seq<Seq<char>>
    decreases vals.len(),
{
    if vals.len() == 0 {
        Seq::empty()
    } else {
        let rest = redact_values(vals.drop_last(), red);
        if !occurs_in(vals.last(), red) {
            rest.push(vals.last())
        } else {
            rest
        }
    }
}

/// An exact copy of one expanded argument.
fn arg_dup(a: &ExpandedArg) -> (r: ExpandedArg)
    ensures
        r.value@ == a.value@,
        r.source == a.source,
{
    let source = match &a.source {
        ExpandedArgSource::Inline => ExpandedArgSource::Inline,
        ExpandedArgSource::Flagfile(src) => ExpandedArgSource::Flagfile(src.clone()),
    };
    ExpandedArg { value: a.value.clone(), source }
}

/// Whether a string list contains the given string, by content.
fn list_contains(hay: &Vec<String>, needle: &String) -> (r: bool)
    ensures
        r == occurs_in(needle@, str_values(hay@)),
{
    let ghost hv = str_values(hay@);
    let mut i: usize = 0;
    while i < hay.len()
        invariant
            i <= hay@.len(),
            hv == str_values(hay@),
            forall|j: int| 0 <= j < i ==> hv[j] != needle@,
        decreases hay@.len() - i,
    {
        if hay[i].eq(needle) {
            proof {
                assert(hv[i as int] == needle@);
            }
            return true;
        }
        i = i + 1;
    }
    false
}

impl ExpandedArgv {
    /// An empty expanded argv.
    pub fn new() -> (r: ExpandedArgv)
        ensures
            r@ == Seq::<Seq<char>>::empty(),
    {
        Self::from_literals(Vec::new())
    }

    /// An expanded argv whose arguments were all written inline.
    pub fn from_literals(args: Vec<String>) -> (r: ExpandedArgv)
        ensures
            r@ == str_values(args@),
            forall|i: int| 0 <= i < r.arg_count() ==> r.arg_source(i) is Inline,
    {
        let ghost av = str_values(args@);
        let mut out: Vec<ExpandedArg> = Vec::new();
        let mut i: usize = 0;
        while i < args.len()
            invariant
                i <= args@.len(),
                av == str_values(args@),
                out@.len() == i,
                forall|j: int|
                    0 <= j < i ==> (#[trigger] out@[j]).value@ == av[j] && out@[j].source
                        is Inline,
            decreases args@.len() - i,
        {
            let v = args[i].clone();
            out.push(ExpandedArg { value: v, source: ExpandedArgSource::Inline });
            i = i + 1;
        }
        let r = ExpandedArgv { args: out };
        proof {
            assert(r@ =~= av);
        }
        r
    }

    /// How many arguments there are.
    pub open spec fn arg_count(self) -> int {
        self.args@.len() as int
    }

    /// The origin of the argument at an index.
    pub open spec fn arg_source(self, i: int) -> ExpandedArgSource {
        self.args@[i].source
    }

    /// The argument strings.
    pub fn args(&self) -> (r: Vec<String>)
        ensures
            str_values(r@) == self@,
    {
        let mut out: Vec<String> = Vec::new();
        let mut i: usize = 0;
        while i < self.args.len()
            invariant
                i <= self.args@.len(),
                out@.len() == i,
                forall|j: int| 0 <= j < i ==> (#[trigger] out@[j])@ == self@[j],
            decreases self.args@.len() - i,
        {
            out.push(self.args[i].value.clone());
            i = i + 1;
        }
        proof {
            assert(str_values(out@) =~= self@);
        }
        out
    }

    /// This argv without the arguments whose content occurs in the list
    /// to redact.
    fn redacted(self, to_redact: &Vec<String>) -> (r: ExpandedArgv)
        ensures
            r@ == redact_values(self@, str_values(to_redact@)),
    {
        let ghost red = str_values(to_redact@);
        let args = self.args;
        let ghost orig = args@;
        let mut i: usize = 0;
        let mut kept: Vec<ExpandedArg> = Vec::new();
        while i < args.len()
            invariant
                i <= orig.len(),
                orig == args@,
                red == str_values(to_redact@),
                arg_values(kept@) =~= redact_values(arg_values(orig.subrange(0, i as int)), red),
            decreases orig.len() - i,
        {
            let keep = !list_contains(to_redact, &args[i].value);
            let ghost pre = kept@;
            if keep {
                kept.push(arg_dup(&args[i]));
                proof {
                    assert(arg_values(kept@) =~= arg_values(pre).push(orig[i as int].value@));
                }
            }
            i = i + 1;
            proof {
                let sub0 = arg_values(orig.subrange(0, i - 1));
                let sub1 = arg_values(orig.subrange(0, i as int));
                assert(sub1 =~= sub0.push(orig[i - 1].value@));
                assert(sub1.drop_last() =~= sub0);
                assert(arg_values(kept@) =~= redact_values(sub1, red));
            }
        }
        let r = ExpandedArgv { args: kept };
        proof {
            assert(orig.subrange(0, orig.len() as int) =~= orig);
        }
        r
    }
}

/// The builder that expands an argv, tracking the current flagfile.
pub struct ExpandedArgvBuilder {
    pub current_argfile: Option<Arc<FlagfileArgSource>>,
    pub argv: ExpandedArgv,
}

impl ExpandedArgvBuilder {
    /// A builder with no arguments and no open flagfile.
    pub fn new() -> (r: ExpandedArgvBuilder)
        ensures
            r.argv@ == Seq::<Seq<char>>::empty(),
            r.current_argfile is None,
    {
        ExpandedArgvBuilder { argv: ExpandedArgv::new(), current_argfile: None }
    }

    /// The arguments collected so far.
    pub open spec fn collected(self) -> Seq<Seq<char>> {
        self.argv@
    }

    /// Replaces the argument at an index.
    pub fn replace(&mut self, idx: usize, val: String)
        requires
            idx < old(self).collected().len(),
        ensures
            final(self).collected() == old(self).collected().update(idx as int, val@),
            final(self).current_argfile is None == old(self).current_argfile is None,
    {
        let slot = &mut self.argv.args[idx];
        slot.value = val;
        proof {
            assert(self.collected() =~= old(self).collected().update(idx as int, val@));
        }
    }

    /// Appends one argument, marked with the currently open flagfile, or
    /// as inline when none is open.
    pub fn push(&mut self, next_arg: String)
        ensures
            final(self).collected() == old(self).collected().push(next_arg@),
            final(self).current_argfile is None == old(self).current_argfile is None,
    {
        let source = match &self.current_argfile {
            Some(argfile) => ExpandedArgSource::Flagfile(argfile.clone()),
            None => ExpandedArgSource::Inline,
        };
        self.argv.args.push(ExpandedArg { value: next_arg, source });
        proof {
            assert(self.collected() =~= old(self).collected().push(next_arg@));
        }
    }

    /// The expanded argv built.
    pub fn build(self) -> (r: ExpandedArgv)
        ensures
            r@ == self.collected(),
    {
        self.argv
    }

    /// Appends arguments read from one flagfile: each is marked as coming
    /// from a flagfile of the given kind, included by whichever flagfile
    /// was open around it, and the surrounding flagfile is open again
    /// afterwards.
    pub fn argfile_scope(&mut self, kind: ArgFileKind, args: &Vec<String>)
        ensures
            final(self).collected() == old(self).collected() + str_values(args@),
            final(self).current_argfile is None == old(self).current_argfile is None,
    {
        let parent = self.current_argfile.take();
        let source = Arc::new(FlagfileArgSource { kind, parent });
        let ghost mid = self.collected();
        let ghost av = str_values(args@);
        let mut i: usize = 0;
        while i < args.len()
            invariant
                i <= av.len(),
                av == str_values(args@),
                av.len() == args@.len(),
                self.collected() =~= mid + av.subrange(0, i as int),
            decreases av.len() - i,
        {
            let a = args[i].clone();
            let src = ExpandedArgSource::Flagfile(source.clone());
            let ghost prec = self.collected();
            self.argv.args.push(ExpandedArg { value: a, source: src });
            i = i + 1;
            proof {
                assert(self.collected() =~= prec.push(av[i - 1]));
                assert(av.subrange(0, i as int) =~= av.subrange(0, i - 1).push(av[i - 1]));
                assert(self.collected() =~= mid + av.subrange(0, i as int));
            }
        }
        let current = source;
        let restored = match &current.parent {
            Some(p) => Some(p.clone()),
            None => None,
        };
        self.current_argfile = restored;
        proof {
            assert(av.subrange(0, av.len() as int) =~= av);
        }
    }
}

impl Argv {
    /// This argv, declared free of anything to strip.
    pub fn no_need_to_sanitize(self) -> (r: SanitizedArgv)
        ensures
            r.argv@ == self.argv@,
            r.expanded_argv@ == self.expanded_argv@,
    {
        let Argv { argv, expanded_argv } = self;
        SanitizedArgv { argv, expanded_argv }
    }

    /// This argv without the arguments whose content occurs in the list
    /// to redact, in both the bare and the expanded form.
    pub fn redacted(self, to_redact: Vec<String>) -> (r: SanitizedArgv)
        ensures
            str_values(r.argv@) == redact_values(
                str_values(self.argv@),
                str_values(to_redact@),
            ),
            r.expanded_argv@ == redact_values(self.expanded_argv@, str_values(to_redact@)),
    {
        let ghost red = str_values(to_redact@);
        let ghost orig = self.argv@;
        let mut bare: Vec<String> = Vec::new();
        let mut i: usize = 0;
        let argv = self.argv;
        while i < argv.len()
            invariant
                i <= argv@.len(),
                orig == argv@,
                red == str_values(to_redact@),
                str_values(bare@) =~= redact_values(str_values(argv@.subrange(0, i as int)), red),
            decreases argv@.len() - i,
        {
            let keep = !list_contains(&to_redact, &argv[i]);
            let ghost sub0 = str_values(argv@.subrange(0, i as int));
            let ghost sub1 = str_values(argv@.subrange(0, i + 1));
            let ghost preb = bare@;
            if keep {
                bare.push(argv[i].clone());
                proof {
                    assert(str_values(bare@) =~= str_values(preb).push(argv@[i as int]@));
                }
            }
            i = i + 1;
            proof {
                assert(sub1 =~= sub0.push(argv@[i - 1]@));
                assert(sub1.drop_last() =~= sub0);
                assert(str_values(bare@) =~= redact_values(sub1, red));
            }
        }
        proof {
            assert(argv@.subrange(0, argv@.len() as int) =~= argv@);
        }
        SanitizedArgv { argv: bare, expanded_argv: self.expanded_argv.redacted(&to_redact) }
    }
}

} // verus!
