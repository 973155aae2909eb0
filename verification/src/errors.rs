//! Structured evaluation errors and recovery of structure from foreign errors.
//!
//! A failure surfaced by a host library arrives as a chain of source errors.
//! Each link may carry metadata describing how to rebuild a structured
//! [`Error`]: root metadata (the error is itself a root cause with a declared
//! type) or context metadata (category and tags to attach).  A link may also
//! be a structured [`Error`] that made a round trip through the foreign
//! representation.  [`recover_crate_error`] walks the chain and rebuilds the
//! most structured error it can.

use vstd::prelude::*;

verus! {

/// Whether an error is chargeable to the user or to the infrastructure.
#[derive(Clone, Copy, Debug, PartialEq, Eq, Structural)]
pub enum Category {
    User,
    Infra,
}

/// The declared type of a root error.
#[derive(Clone, Copy, Debug, PartialEq, Eq, Structural)]
pub enum ErrorType {
    Watchman,
    DaemonIsBusy,
}

/// A machine-readable label attached to an error.
#[derive(Clone, Copy, Debug, PartialEq, Eq, Structural)]
pub enum ErrorTag {
    StarlarkFail,
    WatchmanTimeout,
    Tier0,
}

/// Root metadata a foreign error can provide: marks the error as a root
/// cause of a declared type.
#[derive(Clone, Debug)]
pub struct ProvidableRootMetadata {
    pub typ: Option<ErrorType>,
}

/// Context metadata a foreign error can provide: a source location, a
/// category and tags to attach.  It may appear on several links of a chain;
/// the source location of the bottom-most provider wins.
#[derive(Clone, Debug)]
pub struct ProvidableContextMetadata {
    pub source_file: String,
    pub source_location_extra: Option<String>,
    pub category: Option<Category>,
    pub tags: Vec<ErrorTag>,
}

/// The root cause of a structured error.
#[derive(Clone, Debug, PartialEq)]
pub struct ErrorRoot {
    pub description: String,
    pub typ: Option<ErrorType>,
    pub source_location: Option<String>,
}

/// One layer of context wrapped around an error.
#[derive(Clone, Debug, PartialEq)]
pub enum ContextValue {
    Dyn(String),
    Category(Category),
    Tags(Vec<ErrorTag>),
}

/// One kind of structured error: a root cause, or an error with one more
/// layer of context around it.
#[derive(Debug)]
pub enum ErrorKind {
    Root(ErrorRoot),
    WithContext(ContextValue, Box<Error>),
}

/// A structured evaluation error.
#[derive(Debug)]
pub struct Error(pub Box<ErrorKind>);

/// One link of a foreign error's source chain: either a plain foreign error
/// (with whatever metadata it provides and its own source), or a structured
/// [`Error`] embedded in the foreign representation.
#[derive(Debug)]
pub enum SourceFrame {
    Std(StdFrame),
    Lib(Error),
}

/// A plain foreign error link: its rendering and the metadata it provides.
#[derive(Debug)]
pub struct StdFrame {
    pub display: String,
    pub root: Option<ProvidableRootMetadata>,
    pub context: Option<ProvidableContextMetadata>,
    pub source: Option<Box<SourceFrame>>,
}

/// A foreign error as handed to the library: the top of a source chain.
#[derive(Debug)]
pub struct ForeignError(pub Box<SourceFrame>);

// ---------------------------------------------------------------------------
// The mathematical model: an error is a root plus a stack of contexts,
// innermost first; a foreign error is the sequence of its chain links,
// top (outermost) first.
// ---------------------------------------------------------------------------

/// Model of a root cause.
#[verifier::ext_equal]
pub struct RootModel {
    pub description: Seq<char>,
    pub typ: Option<ErrorType>,
    pub source_location: Option<Seq<char>>,
}

/// Model of one context layer.
#[verifier::ext_equal]
pub enum ContextModel {
    Dyn(Seq<char>),
    Category(Category),
    Tags(Seq<ErrorTag>),
}

/// Model of a structured error: the root and the contexts around it,
/// innermost (closest to the root) first.
#[verifier::ext_equal]
pub struct ErrorModel {
    pub root: RootModel,
    pub contexts: Seq<ContextModel>,
}

/// Model of context metadata.
#[verifier::ext_equal]
pub struct CtxMdModel {
    pub source_file: Seq<char>,
    pub source_location_extra: Option<Seq<char>>,
    pub category: Option<Category>,
    pub tags: Seq<ErrorTag>,
}

/// Model of one chain link.
#[verifier::ext_equal]
pub enum FrameModel {
    Std {
        display: Seq<char>,
        root_typ: Option<Option<ErrorType>>,
        ctx: Option<CtxMdModel>,
    },
    Lib(ErrorModel),
}

impl View for ContextValue {
    type V = ContextModel;

    open spec fn view(&self) -> ContextModel {
        match self {
            ContextValue::Dyn(s) => ContextModel::Dyn(s@),
            ContextValue::Category(c) => ContextModel::Category(*c),
            ContextValue::Tags(ts) => ContextModel::Tags(ts@),
        }
    }
}

impl View for ErrorRoot {
    type V = RootModel;

    open spec fn view(&self) -> RootModel {
        RootModel {
            description: self.description@,
            typ: self.typ,
            source_location: match self.source_location {
                Some(ref s) => Some(s@),
                None => None,
            },
        }
    }
}

/// The model of a structured error value.
pub open spec fn error_model(e: Error) -> ErrorModel
    decreases e,
{
    match *e.0 {
        ErrorKind::Root(r) => ErrorModel { root: r@, contexts: Seq::empty() },
        ErrorKind::WithContext(c, inner) => {
            let m = error_model(*inner);
            ErrorModel { root: m.root, contexts: m.contexts.push(c@) }
        },
    }
}

impl View for Error {
    type V = ErrorModel;

    open spec fn view(&self) -> ErrorModel {
        error_model(*self)
    }
}

impl View for ProvidableContextMetadata {
    type V = CtxMdModel;

    open spec fn view(&self) -> CtxMdModel {
        CtxMdModel {
            source_file: self.source_file@,
            source_location_extra: match self.source_location_extra {
                Some(ref s) => Some(s@),
                None => None,
            },
            category: self.category,
            tags: self.tags@,
        }
    }
}

/// The chain of links from a frame to the bottom of its source chain.
pub open spec fn frame_chain(fr: SourceFrame) -> Seq<FrameModel>
    decreases fr,
{
    match fr {
        SourceFrame::Lib(e) => seq![FrameModel::Lib(error_model(e))],
        SourceFrame::Std(f) => {
            let head = FrameModel::Std {
                display: f.display@,
                root_typ: match f.root {
                    Some(md) => Some(md.typ),
                    None => None,
                },
                ctx: match f.context {
                    Some(md) => Some(md@),
                    None => None,
                },
            };
            match f.source {
                Some(rest) => seq![head] + frame_chain(*rest),
                None => seq![head],
            }
        },
    }
}

impl View for SourceFrame {
    type V = Seq<FrameModel>;

    /// A chain link views as the sequence of links from it to the bottom.
    open spec fn view(&self) -> Seq<FrameModel> {
        frame_chain(*self)
    }
}

impl View for ForeignError {
    type V = Seq<FrameModel>;

    open spec fn view(&self) -> Seq<FrameModel> {
        self.0@
    }
}

// ---------------------------------------------------------------------------
// Specification of recovery.
// ---------------------------------------------------------------------------

/// The source location rendered from a file and an optional qualifier.
pub open spec fn from_file_model(file: Seq<char>, extra: Option<Seq<char>>) -> Seq<char> {
    match extra {
        Some(e) => file + "::"@ + e,
        None => file,
    }
}

/// Whether some link of the chain is a base: an embedded structured error,
/// or a link carrying root metadata.
pub open spec fn has_base(frames: Seq<FrameModel>) -> bool {
    exists|i: int|
        0 <= i < frames.len() && (#[trigger] frames[i] is Lib || frames[i] matches FrameModel::Std {
            root_typ: Some(_),
            ..
        })
}

/// Whether some link of the chain carries context metadata.
pub open spec fn has_ctx(frames: Seq<FrameModel>) -> bool {
    exists|i: int|
        0 <= i < frames.len() && #[trigger] frames[i] matches FrameModel::Std { ctx: Some(_), .. }
}

/// One more context layer around an error.
pub open spec fn push_ctx(m: ErrorModel, c: ContextModel) -> ErrorModel {
    ErrorModel { root: m.root, contexts: m.contexts.push(c) }
}

/// Context metadata applied to an error: its category, then its tags, each
/// only when present.
pub open spec fn apply_ctx_md(m: ErrorModel, ctx: Option<CtxMdModel>) -> ErrorModel {
    match ctx {
        None => m,
        Some(md) => {
            let m1 = match md.category {
                Some(c) => push_ctx(m, ContextModel::Category(c)),
                None => m,
            };
            if md.tags.len() > 0 {
                push_ctx(m1, ContextModel::Tags(md.tags))
            } else {
                m1
            }
        },
    }
}

/// The rendering of a plain foreign chain: the links' displays joined
/// with ": ".
pub open spec fn chain_render(frames: Seq<FrameModel>) -> Seq<char>
    decreases frames.len(),
{
    if frames.len() == 0 {
        Seq::empty()
    } else {
        let head = match frames[0] {
            FrameModel::Std { display, .. } => display,
            FrameModel::Lib(_) => Seq::empty(),
        };
        if frames.len() == 1 {
            head
        } else {
            head + ": "@ + chain_render(frames.drop_first())
        }
    }
}

/// What recovery returns for a chain, starting from a given source location.
///
/// The topmost base link wins: an embedded structured error is returned as
/// it is, and a link with root metadata becomes a typed root; links above
/// the base are replayed as context.  When no base exists, the bottom-most
/// link with context metadata becomes an untyped root.  When the chain has
/// no metadata at all, the whole chain is rendered into a plain root.  The
/// source location used for a root is the one of the last context metadata
/// seen on the way down, and every link's context metadata attaches its
/// category and tags where the link's display is replayed.
pub open spec fn spec_recover(frames: Seq<FrameModel>, loc: Option<Seq<char>>) -> ErrorModel
    decreases frames.len(),
{
    if frames.len() == 0 {
        ErrorModel { root: RootModel { description: Seq::empty(), typ: None, source_location: loc }, contexts: Seq::empty() }
    } else {
        match frames[0] {
            FrameModel::Lib(m) => m,
            FrameModel::Std { display, root_typ, ctx } => {
                let loc2 = match ctx {
                    Some(md) => Some(from_file_model(md.source_file, md.source_location_extra)),
                    None => loc,
                };
                let rest = frames.drop_first();
                if let Some(t) = root_typ {
                    apply_ctx_md(
                        ErrorModel {
                            root: RootModel { description: display, typ: t, source_location: loc2 },
                            contexts: Seq::empty(),
                        },
                        ctx,
                    )
                } else if has_base(rest) || has_ctx(rest) {
                    apply_ctx_md(push_ctx(spec_recover(rest, loc2), ContextModel::Dyn(display)), ctx)
                } else if ctx is Some {
                    apply_ctx_md(
                        ErrorModel {
                            root: RootModel { description: display, typ: None, source_location: loc2 },
                            contexts: Seq::empty(),
                        },
                        ctx,
                    )
                } else {
                    ErrorModel {
                        root: RootModel { description: chain_render(frames), typ: None, source_location: loc },
                        contexts: Seq::empty(),
                    }
                }
            },
        }
    }
}


// ---------------------------------------------------------------------------
// Executable recovery.
// ---------------------------------------------------------------------------

/// The view of an optional source location.
pub open spec fn opt_str_view(o: Option<String>) -> Option<Seq<char>> {
    match o {
        Some(s) => Some(s@),
        None => None,
    }
}

/// Renders a source location from a file and an optional qualifier.
pub fn source_location_from_file(file: &str, extra: Option<&str>) -> (r: Option<String>)
    ensures
        r matches Some(s) && s@ == from_file_model(file@, match extra {
            Some(e) => Some(e@),
            None => None,
        }),
{
    match extra {
        Some(e) => {
            let mut out = file.to_owned();
            out.append("::");
            out.append(e);
            Some(out)
        },
        None => Some(file.to_owned()),
    }
}

/// Whether a base (an embedded structured error, or root metadata) occurs
/// anywhere in the chain starting at this link.
fn frame_has_base(fr: &SourceFrame) -> (r: bool)
    ensures
        r == has_base(fr@),
    decreases fr,
{
    match fr {
        SourceFrame::Lib(_) => {
            assert(fr@[0] is Lib);
            true
        },
        SourceFrame::Std(f) => {
            if f.root.is_some() {
                assert(fr@[0] matches FrameModel::Std { root_typ: Some(_), .. });
                true
            } else {
                match &f.source {
                    Some(rest) => {
                        let r = frame_has_base(rest);
                        proof {
                            lemma_chain_shift(*fr);
                        }
                        r
                    },
                    None => {
                        assert(fr@.len() == 1);
                        false
                    },
                }
            }
        },
    }
}

/// Whether context metadata occurs anywhere in the chain starting at this
/// link.
fn frame_has_ctx(fr: &SourceFrame) -> (r: bool)
    ensures
        r == has_ctx(fr@),
    decreases fr,
{
    match fr {
        SourceFrame::Lib(_) => false,
        SourceFrame::Std(f) => {
            if f.context.is_some() {
                assert(fr@[0] matches FrameModel::Std { ctx: Some(_), .. });
                true
            } else {
                match &f.source {
                    Some(rest) => {
                        let r = frame_has_ctx(rest);
                        proof {
                            lemma_chain_shift(*fr);
                        }
                        r
                    },
                    None => false,
                }
            }
        },
    }
}

/// For a plain link with a source, the chain is the link followed by the
/// source's chain, and a base or context metadata below the link lies in the
/// source's chain.
proof fn lemma_chain_shift(fr: SourceFrame)
    requires
        fr matches SourceFrame::Std(f) && f.source is Some,
    ensures
        fr@.len() > 1,
        fr@.drop_first() == (fr->Std_0.source->0)@,
        !(fr@[0] is Lib) ==> (has_base(fr@) == (fr@[0] matches FrameModel::Std {
            root_typ: Some(_),
            ..
        } || has_base(fr@.drop_first()))),
        has_ctx(fr@) == (fr@[0] matches FrameModel::Std { ctx: Some(_), .. } || has_ctx(
            fr@.drop_first(),
        )),
{
    let f = fr->Std_0;
    let rest = *f.source->0;
    assert(fr@ == seq![fr@[0]] + rest@);
    assert(fr@.drop_first() =~= rest@);
    if has_base(fr@.drop_first()) {
        let i = choose|i: int|
            0 <= i < fr@.drop_first().len() && (#[trigger] fr@.drop_first()[i] is Lib
                || fr@.drop_first()[i] matches FrameModel::Std { root_typ: Some(_), .. });
        assert(fr@[i + 1] is Lib || fr@[i + 1] matches FrameModel::Std {
            root_typ: Some(_),
            ..
        });
    }
    if !(fr@[0] is Lib) && !(fr@[0] matches FrameModel::Std { root_typ: Some(_), .. })
        && has_base(fr@) {
        let i = choose|i: int|
            0 <= i < fr@.len() && (#[trigger] fr@[i] is Lib || fr@[i] matches FrameModel::Std {
                root_typ: Some(_),
                ..
            });
        assert(fr@.drop_first()[i - 1] is Lib || fr@.drop_first()[i - 1] matches FrameModel::Std {
            root_typ: Some(_),
            ..
        });
    }
    if has_ctx(fr@.drop_first()) {
        let i = choose|i: int|
            0 <= i < fr@.drop_first().len() && #[trigger] fr@.drop_first()[i] matches FrameModel::Std {
                ctx: Some(_),
                ..
            };
        assert(fr@[i + 1] matches FrameModel::Std { ctx: Some(_), .. });
    }
    if !(fr@[0] matches FrameModel::Std { ctx: Some(_), .. }) && has_ctx(fr@) {
        let i = choose|i: int|
            0 <= i < fr@.len() && #[trigger] fr@[i] matches FrameModel::Std { ctx: Some(_), .. };
        assert(fr@.drop_first()[i - 1] matches FrameModel::Std { ctx: Some(_), .. });
    }
}

/// Renders the chain starting at this link: the displays joined with ": ".
fn render_chain(fr: &SourceFrame) -> (r: String)
    ensures
        r@ == chain_render(fr@),
    decreases fr,
{
    match fr {
        SourceFrame::Lib(_) => String::new(),
        SourceFrame::Std(f) => {
            match &f.source {
                Some(rest) => {
                    let mut out = f.display.clone();
                    out.append(": ");
                    let tail = render_chain(rest);
                    out.append(tail.as_str());
                    proof {
                        lemma_chain_shift(*fr);
                    }
                    out
                },
                None => f.display.clone(),
            }
        },
    }
}

/// Context metadata applied to a recovered error: its category, then its
/// tags, each only when present.
///
/// Relied on by every recovery path that sees metadata on a link.
pub fn maybe_add_context_from_metadata(e: Error, context: &Option<ProvidableContextMetadata>) -> (r:
    Error)
    ensures
        r@ == apply_ctx_md(e@, match *context {
            Some(ref md) => Some(md@),
            None => None,
        }),
{
    match context {
        None => e,
        Some(md) => {
            let ghost m0 = e@;
            let mut out = e;
            if let Some(c) = md.category {
                out = Error(Box::new(ErrorKind::WithContext(ContextValue::Category(c), Box::new(out))));
                assert(out@ =~= push_ctx(m0, ContextModel::Category(c)));
            }
            let ghost m1 = out@;
            if md.tags.len() > 0 {
                let tags = clone_tags(&md.tags);
                out = Error(Box::new(ErrorKind::WithContext(ContextValue::Tags(tags), Box::new(out))));
                assert(out@ =~= push_ctx(m1, ContextModel::Tags(md.tags@)));
            }
            assert(out@ =~= apply_ctx_md(m0, Some(md@)));
            out
        },
    }
}

/// Copies a list of tags.
fn clone_tags(tags: &Vec<ErrorTag>) -> (r: Vec<ErrorTag>)
    ensures
        r@ == tags@,
{
    let mut out: Vec<ErrorTag> = Vec::new();
    let mut i: usize = 0;
    while i < tags.len()
        invariant
            i <= tags@.len(),
            out@ == tags@.subrange(0, i as int),
        decreases tags@.len() - i,
    {
        out.push(tags[i]);
        i = i + 1;
    }
    proof {
        assert(out@ =~= tags@);
    }
    out
}

/// Recovers the most structured error a foreign chain allows.
///
/// The returned error is exactly what [`spec_recover`] describes of the
/// chain and the starting source location.
pub fn recover_crate_error(value: ForeignError, source_location: Option<String>) -> (r: Error)
    ensures
        r@ == spec_recover(value@, opt_str_view(source_location)),
{
    recover_frame(*value.0, source_location)
}

fn recover_frame(fr: SourceFrame, loc: Option<String>) -> (r: Error)
    ensures
        r@ == spec_recover(frame_chain(fr), opt_str_view(loc)),
    decreases fr,
{
    match fr {
        SourceFrame::Lib(e) => {
            proof {
                let chain = frame_chain(SourceFrame::Lib(e));
                assert(chain.len() == 1 && chain[0] == FrameModel::Lib(error_model(e)));
            }
            e
        },
        SourceFrame::Std(f) => {
            let ghost chain = frame_chain(SourceFrame::Std(f));
            let ghost head = FrameModel::Std {
                display: f.display@,
                root_typ: match f.root {
                    Some(ref md) => Some(md.typ),
                    None => None,
                },
                ctx: match f.context {
                    Some(ref md) => Some(md@),
                    None => None,
                },
            };
            proof {
                assert(chain[0] == head);
                if f.source is Some {
                    lemma_chain_shift(SourceFrame::Std(f));
                } else {
                    assert(chain.len() == 1);
                }
            }
            let StdFrame { display, root, context, source } = f;
            let loc2: Option<String> = match &context {
                Some(md) => {
                    source_location_from_file(
                        md.source_file.as_str(),
                        match &md.source_location_extra {
                            Some(e) => Some(e.as_str()),
                            None => None,
                        },
                    )
                },
                None => loc,
            };
            if let Some(md) = &root {
                let e = Error(Box::new(ErrorKind::Root(ErrorRoot {
                    description: display,
                    typ: md.typ,
                    source_location: loc2,
                })));
                let r = maybe_add_context_from_metadata(e, &context);
                proof {
                    assert(r@ =~= spec_recover(chain, opt_str_view(loc)));
                }
                r
            } else {
                let descend = match &source {
                    Some(rest) => frame_has_base(rest) || frame_has_ctx(rest),
                    None => false,
                };
                if descend {
                    let rest = source.unwrap();
                    let inner = recover_frame(*rest, loc2);
                    let e = Error(Box::new(ErrorKind::WithContext(ContextValue::Dyn(display), Box::new(inner))));
                    let r = maybe_add_context_from_metadata(e, &context);
                    proof {
                        assert(r@ =~= spec_recover(chain, opt_str_view(loc)));
                    }
                    r
                } else if context.is_some() {
                    let e = Error(Box::new(ErrorKind::Root(ErrorRoot {
                        description: display,
                        typ: None,
                        source_location: loc2,
                    })));
                    let r = maybe_add_context_from_metadata(e, &context);
                    proof {
                        assert(r@ =~= spec_recover(chain, opt_str_view(loc)));
                    }
                    r
                } else {
                    let description = match &source {
                        Some(rest) => {
                            let mut out = display;
                            out.append(": ");
                            let tail = render_chain(rest);
                            out.append(tail.as_str());
                            out
                        },
                        None => display,
                    };
                    let r = Error(Box::new(ErrorKind::Root(ErrorRoot {
                        description,
                        typ: None,
                        source_location: loc2,
                    })));
                    proof {
                        assert(r@ =~= spec_recover(chain, opt_str_view(loc)));
                    }
                    r
                }
            }
        },
    }
}


// ---------------------------------------------------------------------------
// Reading a structured error.
// ---------------------------------------------------------------------------

/// The outermost category attached to a stack of contexts, if any.
pub open spec fn model_category(cs: Seq<ContextModel>) -> Option<Category>
    decreases cs.len(),
{
    if cs.len() == 0 {
        None
    } else {
        match cs.last() {
            ContextModel::Category(c) => Some(c),
            _ => model_category(cs.drop_last()),
        }
    }
}

/// Whether a tag occurs in some tag context of the stack.
pub open spec fn model_has_tag(cs: Seq<ContextModel>, t: ErrorTag) -> bool {
    exists|i: int|
        0 <= i < cs.len() && (#[trigger] cs[i] matches ContextModel::Tags(ts) && ts.contains(t))
}

/// The canonical rendering of a tag set: each present tag once, in rank
/// order.
pub open spec fn canonical_tags(sf: bool, wt: bool, t0: bool) -> Seq<ErrorTag> {
    (if sf {
        seq![ErrorTag::StarlarkFail]
    } else {
        Seq::empty()
    }) + (if wt {
        seq![ErrorTag::WatchmanTimeout]
    } else {
        Seq::empty()
    }) + (if t0 {
        seq![ErrorTag::Tier0]
    } else {
        Seq::empty()
    })
}

/// The rendering of an error: the context messages from the outside in,
/// then the root description, joined with ": ".
pub open spec fn model_render(m: ErrorModel) -> Seq<char>
    decreases m.contexts.len(),
{
    if m.contexts.len() == 0 {
        m.root.description
    } else {
        let rest = ErrorModel { root: m.root, contexts: m.contexts.drop_last() };
        match m.contexts.last() {
            ContextModel::Dyn(s) => s + ": "@ + model_render(rest),
            _ => model_render(rest),
        }
    }
}

proof fn lemma_push_has_tag(cs: Seq<ContextModel>, c: ContextModel, t: ErrorTag)
    ensures
        model_has_tag(cs.push(c), t) == ((c matches ContextModel::Tags(ts) && ts.contains(t))
            || model_has_tag(cs, t)),
{
    if model_has_tag(cs, t) {
        let i = choose|i: int|
            0 <= i < cs.len() && (#[trigger] cs[i] matches ContextModel::Tags(ts) && ts.contains(
                t,
            ));
        assert(cs.push(c)[i] matches ContextModel::Tags(ts) && ts.contains(t));
    }
    if c matches ContextModel::Tags(ts) && ts.contains(t) {
        assert(cs.push(c)[cs.len() as int] matches ContextModel::Tags(ts2) && ts2.contains(t));
    }
    if model_has_tag(cs.push(c), t) {
        let i = choose|i: int|
            0 <= i < cs.push(c).len() && (#[trigger] cs.push(c)[i] matches ContextModel::Tags(ts)
                && ts.contains(t));
        if i < cs.len() {
            assert(cs[i] matches ContextModel::Tags(ts) && ts.contains(t));
        }
    }
}

/// Whether a tag occurs in a list of tags.
fn tags_contain(ts: &Vec<ErrorTag>, t: ErrorTag) -> (r: bool)
    ensures
        r == ts@.contains(t),
{
    let mut i: usize = 0;
    while i < ts.len()
        invariant
            i <= ts@.len(),
            forall|j: int| 0 <= j < i ==> ts@[j] != t,
        decreases ts@.len() - i,
    {
        if tag_eq(ts[i], t) {
            assert(ts@[i as int] == t);
            return true;
        }
        i = i + 1;
    }
    assert(forall|j: int| 0 <= j < ts@.len() ==> ts@[j] != t);
    false
}

/// Whether two tags are the same tag.
fn tag_eq(a: ErrorTag, b: ErrorTag) -> (r: bool)
    ensures
        r == (a == b),
{
    a == b
}

impl Error {
    /// Recovers a structured error from a single foreign link, as the
    /// recovery of the one-link chain describes.
    pub fn new(f: StdFrame) -> (r: Error)
        ensures
            r@ == spec_recover(frame_chain(SourceFrame::Std(f)), None),
    {
        recover_crate_error(ForeignError(Box::new(SourceFrame::Std(f))), None)
    }

    /// Recovers a structured error from a foreign chain.
    pub fn from_foreign(value: ForeignError) -> (r: Error)
        ensures
            r@ == spec_recover(value@, None),
    {
        recover_crate_error(value, None)
    }

    /// One more layer of message context around this error.
    pub fn context(self, msg: &str) -> (r: Error)
        ensures
            r@ == push_ctx(self@, ContextModel::Dyn(msg@)),
    {
        let r = Error(Box::new(ErrorKind::WithContext(ContextValue::Dyn(msg.to_owned()), Box::new(self))));
        proof {
            assert(r@ =~= push_ctx(self@, ContextModel::Dyn(msg@)));
        }
        r
    }

    /// An exact copy of this error.
    pub fn duplicate(&self) -> (r: Error)
        ensures
            r@ == self@,
        decreases self,
    {
        match &*self.0 {
            ErrorKind::Root(root) => {
                let r = Error(Box::new(ErrorKind::Root(ErrorRoot {
                    description: root.description.clone(),
                    typ: root.typ,
                    source_location: match &root.source_location {
                        Some(s) => Some(s.clone()),
                        None => None,
                    },
                })));
                proof {
                    assert(r@ =~= self@);
                }
                r
            },
            ErrorKind::WithContext(c, inner) => {
                let c2 = match c {
                    ContextValue::Dyn(m) => ContextValue::Dyn(m.clone()),
                    ContextValue::Category(cat) => ContextValue::Category(*cat),
                    ContextValue::Tags(ts) => ContextValue::Tags(clone_tags(ts)),
                };
                let r = Error(Box::new(ErrorKind::WithContext(c2, Box::new(inner.duplicate()))));
                proof {
                    assert(r@ =~= self@);
                }
                r
            },
        }
    }

    /// The outermost category attached to this error, if any.
    pub fn get_category(&self) -> (r: Option<Category>)
        ensures
            r == model_category(self@.contexts),
        decreases self,
    {
        match &*self.0 {
            ErrorKind::Root(_) => None,
            ErrorKind::WithContext(c, inner) => {
                proof {
                    assert(self@.contexts.last() == c@);
                    assert(self@.contexts.drop_last() =~= inner@.contexts);
                }
                match c {
                    ContextValue::Category(cat) => Some(*cat),
                    _ => inner.get_category(),
                }
            },
        }
    }

    /// The declared type of this error's root, if any.
    pub fn get_error_type(&self) -> (r: Option<ErrorType>)
        ensures
            r == self@.root.typ,
        decreases self,
    {
        match &*self.0 {
            ErrorKind::Root(root) => root.typ,
            ErrorKind::WithContext(_, inner) => inner.get_error_type(),
        }
    }

    /// The source location of this error's root, if any.
    pub fn source_location(&self) -> (r: Option<String>)
        ensures
            opt_str_view(r) == self@.root.source_location,
        decreases self,
    {
        match &*self.0 {
            ErrorKind::Root(root) => match &root.source_location {
                Some(s) => Some(s.clone()),
                None => None,
            },
            ErrorKind::WithContext(_, inner) => inner.source_location(),
        }
    }

    /// Whether the given tag is attached anywhere on this error.
    pub fn has_tag(&self, t: ErrorTag) -> (r: bool)
        ensures
            r == model_has_tag(self@.contexts, t),
        decreases self,
    {
        match &*self.0 {
            ErrorKind::Root(_) => {
                proof {
                    assert(!model_has_tag(self@.contexts, t));
                }
                false
            },
            ErrorKind::WithContext(c, inner) => {
                proof {
                    assert(self@.contexts == inner@.contexts.push(c@));
                    lemma_push_has_tag(inner@.contexts, c@, t);
                }
                let here = match c {
                    ContextValue::Tags(ts) => tags_contain(ts, t),
                    _ => false,
                };
                if here {
                    true
                } else {
                    inner.has_tag(t)
                }
            },
        }
    }

    /// The tags attached to this error, each once, in rank order.
    pub fn get_tags(&self) -> (r: Vec<ErrorTag>)
        ensures
            r@ == canonical_tags(
                model_has_tag(self@.contexts, ErrorTag::StarlarkFail),
                model_has_tag(self@.contexts, ErrorTag::WatchmanTimeout),
                model_has_tag(self@.contexts, ErrorTag::Tier0),
            ),
    {
        let sf = self.has_tag(ErrorTag::StarlarkFail);
        let wt = self.has_tag(ErrorTag::WatchmanTimeout);
        let t0 = self.has_tag(ErrorTag::Tier0);
        let mut out: Vec<ErrorTag> = Vec::new();
        if sf {
            out.push(ErrorTag::StarlarkFail);
        }
        if wt {
            out.push(ErrorTag::WatchmanTimeout);
        }
        if t0 {
            out.push(ErrorTag::Tier0);
        }
        proof {
            assert(out@ =~= canonical_tags(sf, wt, t0));
        }
        out
    }

    /// Renders this error: the context messages from the outside in, then
    /// the root description, joined with ": ".
    pub fn render(&self) -> (r: String)
        ensures
            r@ == model_render(self@),
        decreases self,
    {
        match &*self.0 {
            ErrorKind::Root(root) => root.description.clone(),
            ErrorKind::WithContext(c, inner) => {
                proof {
                    assert(self@.contexts.last() == c@);
                    assert(ErrorModel { root: self@.root, contexts: self@.contexts.drop_last() }
                        =~= inner@);
                }
                match c {
                    ContextValue::Dyn(msg) => {
                        let mut out = msg.clone();
                        out.append(": ");
                        let tail = inner.render();
                        out.append(tail.as_str());
                        out
                    },
                    _ => inner.render(),
                }
            },
        }
    }
}

impl ForeignError {
    /// A foreign error whose chain is the one link given.
    pub fn from_std(f: StdFrame) -> (r: ForeignError)
        ensures
            r@ == frame_chain(SourceFrame::Std(f)),
    {
        ForeignError(Box::new(SourceFrame::Std(f)))
    }

    /// A structured error carried through the foreign representation: the
    /// chain is the one embedded error.
    pub fn from_error(e: Error) -> (r: ForeignError)
        ensures
            r@ == seq![FrameModel::Lib(e@)],
    {
        ForeignError(Box::new(SourceFrame::Lib(e)))
    }

    /// One more plain context link on top of the chain.
    pub fn context(self, msg: &str) -> (r: ForeignError)
        ensures
            r@ == seq![
                FrameModel::Std { display: msg@, root_typ: None, ctx: None },
            ] + self@,
    {
        let top = StdFrame { display: msg.to_owned(), root: None, context: None, source: Some(self.0) };
        ForeignError(Box::new(SourceFrame::Std(top)))
    }
}


// ---------------------------------------------------------------------------
// The round trip through the foreign representation.
// ---------------------------------------------------------------------------

/// A structured error embedded in the foreign representation and
/// recovered is itself, exactly.
pub proof fn lemma_foreign_round_trip(m: ErrorModel, loc: Option<Seq<char>>)
    ensures
        spec_recover(seq![FrameModel::Lib(m)], loc) == m,
{
    let chain = seq![FrameModel::Lib(m)];
    assert(chain[0] == FrameModel::Lib(m));
}

/// Context put on the foreign form of a structured error replays as one
/// more context layer around the same error.
pub proof fn lemma_foreign_round_trip_with_context(
    m: ErrorModel,
    display: Seq<char>,
    loc: Option<Seq<char>>,
)
    ensures
        spec_recover(
            seq![FrameModel::Std { display, root_typ: None, ctx: None }, FrameModel::Lib(m)],
            loc,
        ) == push_ctx(m, ContextModel::Dyn(display)),
{
    let chain = seq![
        FrameModel::Std { display, root_typ: None, ctx: None },
        FrameModel::Lib(m),
    ];
    let rest = chain.drop_first();
    assert(rest =~= seq![FrameModel::Lib(m)]);
    assert(rest[0] is Lib);
    assert(has_base(rest));
    lemma_foreign_round_trip(m, loc);
}

} // verus!

