use vstd::prelude::*;

use crate::symbol::{Span, Symbol};

verus! {

/// The closed set of recoverable errors this pipeline can report. None of
/// them aborts a stage: each has a well-defined placeholder the stage leaves
/// behind so that later stages still receive structurally valid input.
#[derive(Clone, Copy, PartialEq, Eq, Structural, Debug)]
pub enum MessageKind {
    /// A name was declared twice in the same scope; the first binding wins.
    DuplicateDeclaration,
    /// An import's target name is bound nowhere on the scope chain.
    UnresolvedImport,
    /// Following an import chain revisited an import already on the chain.
    ImportCycle,
    /// A record field names something that never resolves to a type.
    UnknownType,
}

/// A labeled secondary source location attached to a message, such as the
/// span of the original declaration in a duplicate-declaration report.
#[derive(Clone, Copy, PartialEq, Eq, Structural, Debug)]
pub struct Label {
    pub span: Span,
}

/// One diagnostic: a kind, the name it concerns, a primary source location,
/// and zero or more labeled secondary spans. Rendering into user-facing text
/// is the (external) diagnostic renderer's job.
#[derive(Clone, PartialEq, Eq, Debug)]
pub struct Message {
    pub kind: MessageKind,
    pub name: Symbol,
    pub span: Span,
    pub labels: Vec<Label>,
}

impl Message {
    /// The fixed headline of the message's kind, for renderers that want
    /// one per error class.
    pub fn headline(&self) -> (r: &'static str)
        ensures
            r@.len() > 0,
            self.kind == MessageKind::DuplicateDeclaration ==> r@ == "already in scope"@,
            self.kind == MessageKind::UnresolvedImport ==> r@ == "unresolved import"@,
            self.kind == MessageKind::ImportCycle ==> r@ == "import cycle"@,
            self.kind == MessageKind::UnknownType ==> r@ == "unknown type"@,
    {
        match self.kind {
            MessageKind::DuplicateDeclaration => {
                proof {
                    reveal_strlit("already in scope");
                }
                "already in scope"
            },
            MessageKind::UnresolvedImport => {
                proof {
                    reveal_strlit("unresolved import");
                }
                "unresolved import"
            },
            MessageKind::ImportCycle => {
                proof {
                    reveal_strlit("import cycle");
                }
                "import cycle"
            },
            MessageKind::UnknownType => {
                proof {
                    reveal_strlit("unknown type");
                }
                "unknown type"
            },
        }
    }

    /// The duplicate-declaration report: `span` is the offending
    /// re-declaration, the single label is the original declaration.
    pub fn already_in_scope(name: Symbol, span: Span, original: Span) -> (m: Message)
        ensures
            m.kind == MessageKind::DuplicateDeclaration,
            m.name == name,
            m.span == span,
            m.labels@ == seq![Label { span: original }],
    {
        let mut labels: Vec<Label> = Vec::new();
        labels.push(Label { span: original });
        Message { kind: MessageKind::DuplicateDeclaration, name, span, labels }
    }

    /// The unresolved-import report for the import written at `span`.
    pub fn unresolved_import(name: Symbol, span: Span) -> (m: Message)
        ensures
            m.kind == MessageKind::UnresolvedImport,
            m.name == name,
            m.span == span,
            m.labels@ == Seq::<Label>::empty(),
    {
        Message { kind: MessageKind::UnresolvedImport, name, span, labels: Vec::new() }
    }

    /// The import-cycle report: `span` and `name` identify the import whose
    /// resolution closed the cycle, and each label marks one cycle member.
    pub fn import_cycle(name: Symbol, span: Span, members: Vec<Label>) -> (m: Message)
        ensures
            m.kind == MessageKind::ImportCycle,
            m.name == name,
            m.span == span,
            m.labels == members,
    {
        Message { kind: MessageKind::ImportCycle, name, span, labels: members }
    }

    /// The unknown-type report for a field whose type name never resolves.
    pub fn unknown_type(name: Symbol, span: Span) -> (m: Message)
        ensures
            m.kind == MessageKind::UnknownType,
            m.name == name,
            m.span == span,
            m.labels@ == Seq::<Label>::empty(),
    {
        Message { kind: MessageKind::UnknownType, name, span, labels: Vec::new() }
    }
}

/// The append-only diagnostic sink. Every stage reports into it and keeps
/// going; it is drained only at reporting boundaries between stages or at
/// the end of a run. It is an explicitly passed context object, not global
/// state, so independent compilation runs cannot cross-talk.
#[derive(Debug)]
pub struct Messages {
    messages: Vec<Message>,
}

impl View for Messages {
    type V = Seq<Message>;

    closed spec fn view(&self) -> Seq<Message> {
        self.messages@
    }
}

impl Messages {
    /// An empty sink, created once per compilation run.
    pub fn new() -> (sink: Messages)
        ensures
            sink@ == Seq::<Message>::empty(),
    {
        Messages { messages: Vec::new() }
    }

    /// Appends one message; everything reported earlier stays, in order.
    pub fn report(&mut self, message: Message)
        ensures
            final(self)@ == old(self)@.push(message),
    {
        self.messages.push(message);
    }

    pub fn len(&self) -> (n: usize)
        ensures
            n == self@.len(),
    {
        self.messages.len()
    }

    /// Empties the sink, handing out every accumulated message in insertion
    /// order. This is the reporting boundary: after a drain the sink starts
    /// over for the next stage.
    pub fn drain(&mut self) -> (drained: Vec<Message>)
        ensures
            drained@ == old(self)@,
            final(self)@ == Seq::<Message>::empty(),
    {
        let mut drained: Vec<Message> = Vec::new();
        core::mem::swap(&mut drained, &mut self.messages);
        drained
    }
}

} // verus!
