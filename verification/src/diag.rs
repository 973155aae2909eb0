//! Rewriting of compiler diagnostics for the editor.
//!
//! Diagnostics arrive with file paths relative to the project; the
//! editor needs them absolute, so every span's file name is joined onto
//! the project's cell root, through macro expansions and child messages
//! alike.

use vstd::prelude::*;

verus! {

/// A source span of a diagnostic: the file it points into and, for
/// text born from a macro, where the expansion happened.
#[derive(Debug)]
pub struct Span {
    pub file_name: String,
    pub expansion: Option<Box<Expansion>>,
}

/// A macro expansion: the span of the call, and the definition site's
/// span when the diagnostic carries one.
#[derive(Debug)]
pub struct Expansion {
    pub span: Span,
    pub def_site_span: Option<Box<Span>>,
}

/// One diagnostic message: its spans and its child messages.
#[derive(Debug)]
pub struct Message {
    pub spans: Vec<Span>,
    pub children: Vec<Message>,
}

/// A relative file name joined onto a base directory.
pub open spec fn joined(base: Seq<char>, name: Seq<char>) -> Seq<char> {
    base + "/"@ + name
}

/// Whether `b` is `a` with every file name, through every expansion,
/// joined onto the base.
pub open spec fn span_rewritten(a: Span, b: Span, base: Seq<char>) -> bool
    decreases a,
{
    &&& b.file_name@ == joined(base, a.file_name@)
    &&& match (a.expansion, b.expansion) {
        (None, None) => true,
        (Some(ea), Some(eb)) => {
            &&& span_rewritten(ea.span, eb.span, base)
            &&& match (ea.def_site_span, eb.def_site_span) {
                (None, None) => true,
                (Some(da), Some(db)) => span_rewritten(*da, *db, base),
                _ => false,
            }
        },
        _ => false,
    }
}

/// Whether `b` is `a` with every span, in every child message too,
/// rewritten.
pub open spec fn message_rewritten(a: Message, b: Message, base: Seq<char>) -> bool
    decreases a,
{
    &&& a.spans@.len() == b.spans@.len()
    &&& forall|i: int|
        0 <= i < a.spans@.len() ==> span_rewritten(#[trigger] a.spans@[i], b.spans@[i], base)
    &&& a.children@.len() == b.children@.len()
    &&& forall|i: int|
        0 <= i < a.children@.len() ==> message_rewritten(
            #[trigger] a.children@[i],
            b.children@[i],
            base,
        )
}

/// Joins a relative file name onto the base directory.
fn join_path(base: &str, name: &String) -> (r: String)
    ensures
        r@ == joined(base@, name@),
{
    let mut out = base.to_owned();
    out.append("/");
    out.append(name.as_str());
    out
}

/// Rewrites one span: its own file name and, through an expansion, the
/// call-site and definition-site spans.
pub fn make_span_absolute(span: Span, base_dir: &str) -> (r: Span)
    ensures
        span_rewritten(span, r, base_dir@),
    decreases span,
{
    let Span { file_name, expansion } = span;
    let file_name = join_path(base_dir, &file_name);
    let expansion = match expansion {
        None => None,
        Some(e) => {
            let Expansion { span: call, def_site_span } = *e;
            let call = make_span_absolute(call, base_dir);
            let def_site_span = match def_site_span {
                None => None,
                Some(d) => Some(Box::new(make_span_absolute(*d, base_dir))),
            };
            Some(Box::new(Expansion { span: call, def_site_span }))
        },
    };
    Span { file_name, expansion }
}

/// Rewrites one message: every span, and every child message.
#[verifier::loop_isolation(false)]
pub fn make_message_absolute(message: Message, base_dir: &str) -> (r: Message)
    ensures
        message_rewritten(message, r, base_dir@),
    decreases message,
{
    let Message { spans, children } = message;
    let ghost spans0 = spans@;
    let ghost children0 = children@;
    let mut spans = spans;
    let mut children = children;
    let mut new_spans: Vec<Span> = Vec::new();
    let mut i: usize = 0;
    while i < spans.len()
        invariant
            i <= spans@.len(),
            spans@.len() == spans0.len(),
            forall|j: int| i <= j < spans@.len() ==> #[trigger] spans@[j] == spans0[j],
            new_spans@.len() == i,
            forall|j: int|
                0 <= j < i ==> span_rewritten(#[trigger] spans0[j], new_spans@[j], base_dir@),
        decreases spans@.len() - i,
    {
        let mut taken = Span { file_name: String::new(), expansion: None };
        let slot = &mut spans[i];
        core::mem::swap(slot, &mut taken);
        proof {
            assert(taken == spans0[i as int]);
        }
        new_spans.push(make_span_absolute(taken, base_dir));
        i = i + 1;
    }
    let mut new_children: Vec<Message> = Vec::new();
    let mut i: usize = 0;
    while i < children.len()
        invariant
            i <= children@.len(),
            children@.len() == children0.len(),
            forall|j: int| i <= j < children@.len() ==> #[trigger] children@[j] == children0[j],
            new_children@.len() == i,
            forall|j: int|
                0 <= j < i ==> message_rewritten(
                    #[trigger] children0[j],
                    new_children@[j],
                    base_dir@,
                ),
        decreases children@.len() - i,
    {
        let mut taken = Message { spans: Vec::new(), children: Vec::new() };
        let slot = &mut children[i];
        core::mem::swap(slot, &mut taken);
        proof {
            broadcast use vstd::std_specs::vec::axiom_vec_index_decreases;

            assert(taken == children0[i as int]);
            assert(decreases_to!(message => message.children));
            assert(decreases_to!(message.children => message.children[i as int]));
        }
        let rewritten = make_message_absolute(taken, base_dir);
        new_children.push(rewritten);
        i = i + 1;
    }
    let r = Message { spans: new_spans, children: new_children };
    proof {
        assert(message.spans@ == spans0);
        assert(message.children@ == children0);
        assert forall|x: int| 0 <= x < message.spans@.len() implies span_rewritten(
            #[trigger] message.spans@[x],
            r.spans@[x],
            base_dir@,
        ) by {
            assert(span_rewritten(spans0[x], new_spans@[x], base_dir@));
        }
        assert forall|x: int| 0 <= x < message.children@.len() implies message_rewritten(
            #[trigger] message.children@[x],
            r.children@[x],
            base_dir@,
        ) by {
            assert(message_rewritten(children0[x], new_children@[x], base_dir@));
        }
    }
    r
}

} // verus!
