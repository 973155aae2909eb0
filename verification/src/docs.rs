//! Markdown rendering of query-function documentation.
//!
//! Each function's documentation renders as a reference line and as a
//! full section; argument descriptions substitute the rendered argument
//! type into their format around a single hole.

use vstd::prelude::*;

verus! {

/// Rendering choices: terminal output disables links.
#[derive(Debug, Clone, Copy, PartialEq, Eq, Structural)]
pub struct MarkdownOptions {
    pub links_enabled: bool,
}

/// One argument of a documented function: its name, the format around
/// the hole its type is substituted into, and the rendered type.
#[derive(Debug)]
pub struct ArgDescription {
    pub name: String,
    pub repr_before: String,
    pub repr_after: String,
    pub type_reference: String,
}

/// One documented function.
#[derive(Debug)]
pub struct FunctionDescription {
    pub name: String,
    pub args: Vec<ArgDescription>,
    pub short_help: Option<String>,
    pub details: Option<String>,
}

/// What an argument description renders to.
pub open spec fn arg_rendering(a: ArgDescription) -> Seq<char> {
    a.name@ + ": "@ + a.repr_before@ + a.type_reference@ + a.repr_after@
}

/// The rendered argument list of a function, joined with ", ".
pub open spec fn args_rendering(args: Seq<ArgDescription>) -> Seq<char>
    decreases args.len(),
{
    if args.len() == 0 {
        Seq::empty()
    } else if args.len() == 1 {
        arg_rendering(args[0])
    } else {
        args_rendering(args.drop_last()) + ", "@ + arg_rendering(args.last())
    }
}

/// How a function is referred to: a link to its section when links are
/// enabled, its bare name otherwise.
pub open spec fn reference_rendering(f: FunctionDescription, options: MarkdownOptions) -> Seq<
    char,
> {
    if options.links_enabled {
        "["@ + f.name@ + "](#"@ + f.name@ + ")"@
    } else {
        f.name@
    }
}

impl ArgDescription {
    /// Renders this argument: its name, then its format with the
    /// rendered type substituted into the hole.
    pub fn render_markdown(&self, options: &MarkdownOptions) -> (r: String)
        ensures
            r@ == arg_rendering(*self),
    {
        let mut out = self.name.clone();
        out.append(": ");
        out.append(self.repr_before.as_str());
        out.append(self.type_reference.as_str());
        out.append(self.repr_after.as_str());
        out
    }
}

impl FunctionDescription {
    /// How this function is referred to from other rendered text.
    pub fn rendered_reference(&self, options: &MarkdownOptions) -> (r: String)
        ensures
            r@ == reference_rendering(*self, *options),
    {
        if options.links_enabled {
            let mut out = String::new();
            out.append("[");
            out.append(self.name.as_str());
            out.append("](#");
            out.append(self.name.as_str());
            out.append(")");
            out
        } else {
            self.name.clone()
        }
    }

    /// Renders the argument list, joined with ", ".
    fn render_args(&self, options: &MarkdownOptions) -> (r: String)
        ensures
            r@ == args_rendering(self.args@),
    {
        let mut out = String::new();
        let mut i: usize = 0;
        while i < self.args.len()
            invariant
                i <= self.args@.len(),
                out@ == args_rendering(self.args@.subrange(0, i as int)),
            decreases self.args@.len() - i,
        {
            if i > 0 {
                out.append(", ");
            }
            let piece = self.args[i].render_markdown(options);
            out.append(piece.as_str());
            i = i + 1;
            proof {
                let sub = self.args@.subrange(0, i as int);
                assert(sub.drop_last() =~= self.args@.subrange(0, i - 1));
                assert(sub.last() == self.args@[i - 1]);
                assert(out@ =~= args_rendering(sub));
            }
        }
        proof {
            assert(self.args@.subrange(0, self.args@.len() as int) =~= self.args@);
        }
        out
    }

    /// Renders the one-line reference entry: the function's reference,
    /// its argument list, and its short help when it has one.
    pub fn render_short_markdown(&self, options: &MarkdownOptions) -> (r: String)
        ensures
            r@ == " - "@ + reference_rendering(*self, *options) + "("@ + args_rendering(
                self.args@,
            ) + ")"@ + (match self.short_help {
                Some(h) => ": "@ + h@,
                None => Seq::empty(),
            }),
    {
        let mut out = String::new();
        out.append(" - ");
        let reference = self.rendered_reference(options);
        out.append(reference.as_str());
        out.append("(");
        let args = self.render_args(options);
        out.append(args.as_str());
        out.append(")");
        match &self.short_help {
            Some(h) => {
                out.append(": ");
                out.append(h.as_str());
            },
            None => {},
        }
        out
    }

    /// Renders the function's full section: a heading with the argument
    /// list and, when links are enabled, an anchor, then the help
    /// paragraphs that are there.
    pub fn render_markdown(&self, options: &MarkdownOptions) -> (r: String)
        ensures
            r@ == "### "@ + self.name@ + "("@ + args_rendering(self.args@) + ")"@ + (if options.links_enabled {
                "{#"@ + self.name@ + "}"@
            } else {
                Seq::<char>::empty()
            }) + "\n\n"@ + (match self.short_help {
                Some(h) => h@ + "\n\n"@,
                None => Seq::empty(),
            }) + (match self.details {
                Some(d) => d@ + "\n\n"@,
                None => Seq::empty(),
            }),
    {
        let mut out = String::new();
        out.append("### ");
        out.append(self.name.as_str());
        out.append("(");
        let args = self.render_args(options);
        out.append(args.as_str());
        out.append(")");
        if options.links_enabled {
            out.append("{#");
            out.append(self.name.as_str());
            out.append("}");
        }
        out.append("\n\n");
        match &self.short_help {
            Some(h) => {
                out.append(h.as_str());
                out.append("\n\n");
            },
            None => {},
        }
        match &self.details {
            Some(d) => {
                out.append(d.as_str());
                out.append("\n\n");
            },
            None => {},
        }
        out
    }
}

} // verus!
