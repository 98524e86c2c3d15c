use vstd::prelude::*;

use vstd::utf8::encode_utf8;

use crate::coords::{DocByte, RequestId, StateId};
use crate::diagnostics::DiagnosticSpan;
use crate::edits::{lossy_text, utf8_lossy};
use crate::highlight::{HighlightSpan, TokenCategory};

verus! {

/// A document handed to semantic analysis: its text, where it starts, the file it
/// comes from, the undo state it was taken in, and the number of the request.
pub struct SemanticRequest {
    pub content: String,
    pub global_offset: DocByte,
    pub file_path: String,
    pub state_id: StateId,
    pub request_id: RequestId,
}

/// What semantic analysis answers a request with.
pub struct SemanticResponse {
    pub state_id: StateId,
    pub request_id: RequestId,
    pub highlights: Vec<HighlightSpan>,
    pub diagnostics: Vec<DiagnosticSpan>,
}

/// Documents of this many bytes or more are not analysed.
pub const MAX_SEMANTIC_BYTES: u64 = 1_048_576;

/// What the editor remembers between frames about semantic analysis: the undo state,
/// document length and path it last asked about (or settled without asking), the
/// request it waits for, and the number the next request gets.
pub struct SemanticGate {
    pub last_state: Option<StateId>,
    pub last_len: usize,
    pub last_path: Option<String>,
    pub pending: Option<RequestId>,
    pub next_id: RequestId,
}

/// What a frame asks of the semantic side.
pub enum SemanticAction {
    /// Leave the semantic highlights as they are.
    Keep,
    /// Drop the semantic highlights.
    Clear,
    /// Send this request; the highlights stay until its answer.
    Send(SemanticRequest),
}

/// The path's bytes end with `.rs`.
pub open spec fn rust_path(p: Seq<char>) -> bool {
    let b = encode_utf8(p);
    b.len() >= 3 && b[b.len() - 3] == 46 && b[b.len() - 2] == 114 && b[b.len() - 1] == 115
}

/// The path that `last` remembers is `p`.
pub open spec fn remembers(last: Option<String>, p: Seq<char>) -> bool {
    last matches Some(q) && q@ == p
}

/// Gate `g` has forgotten what it last asked about.
pub open spec fn forgotten(g: SemanticGate, old: SemanticGate) -> bool {
    &&& g.last_state is None
    &&& g.last_len == usize::MAX
    &&& g.last_path is None
    &&& g.pending is None
    &&& g.next_id == old.next_id
}

/// Gate `g` remembers `path`, state `cur` and length `len`, with no request waited for.
pub open spec fn settled(g: SemanticGate, old: SemanticGate, path: Seq<char>, cur: StateId, len: usize) -> bool {
    &&& g.last_state == Some(cur)
    &&& g.last_len == len
    &&& remembers(g.last_path, path)
    &&& g.pending is None
    &&& g.next_id == old.next_id
}

/// Gate `g` and `action` are what a frame makes of gate `old`, for an open file at
/// `file_path`, with text in view or not, the document's bytes (`None` without a
/// document), and the current undo state `cur`. Semantic analysis runs on Rust files
/// only; a new request goes out when the path, the undo state or the length of the
/// document changed since the last one, unless the document is empty or too large,
/// in which case the highlights are dropped.
pub open spec fn semantic_frame(
    old: SemanticGate,
    file_path: Option<Seq<char>>,
    text_in_view: bool,
    document: Option<Seq<u8>>,
    cur: StateId,
    g: SemanticGate,
    action: SemanticAction,
) -> bool {
    match file_path {
        None => forgotten(g, old) && action is Clear,
        Some(path) => if !rust_path(path) {
            forgotten(g, old) && action is Clear
        } else if !text_in_view {
            settled(g, old, path, cur, 0) && action is Clear
        } else {
            match document {
                None => g == old && action is Keep,
                Some(doc) => {
                    let len = doc.len() as usize;
                    let changed = !remembers(old.last_path, path) || old.last_state != Some(cur)
                        || doc.len() != old.last_len;
                    if !changed {
                        g == old && action is Keep
                    } else if doc.len() == 0 || doc.len() >= MAX_SEMANTIC_BYTES {
                        settled(g, old, path, cur, len) && action is Clear
                    } else {
                        &&& g.last_state == Some(cur)
                        &&& g.last_len == len
                        &&& remembers(g.last_path, path)
                        &&& g.pending == Some(old.next_id)
                        &&& g.next_id == RequestId((old.next_id.0 + 1) as u64)
                        &&& action matches SemanticAction::Send(req) && {
                            &&& req.content@ == lossy_text(doc)
                            &&& req.global_offset == DocByte(0)
                            &&& req.file_path@ == path
                            &&& req.state_id == cur
                            &&& req.request_id == old.next_id
                        }
                    }
                },
            }
        },
    }
}

impl SemanticGate {
    /// A gate that has asked nothing yet; requests are numbered from 1.
    pub fn new() -> (r: Self)
        ensures
            r.last_state is None,
            r.last_len == usize::MAX,
            r.last_path is None,
            r.pending is None,
            r.next_id == RequestId(1),
    {
        SemanticGate {
            last_state: None,
            last_len: usize::MAX,
            last_path: None,
            pending: None,
            next_id: RequestId(1),
        }
    }

    fn forget(&mut self)
        ensures
            forgotten(*final(self), *old(self)),
    {
        self.last_state = None;
        self.last_len = usize::MAX;
        self.last_path = None;
        self.pending = None;
    }

    fn settle(&mut self, path: &String, cur: StateId, len: usize)
        ensures
            settled(*final(self), *old(self), path@, cur, len),
    {
        self.last_state = Some(cur);
        self.last_len = len;
        self.last_path = Some(path.clone());
        self.pending = None;
    }

    /// Decides, once per frame, whether to ask for semantic highlights of the document,
    /// to drop them, or to leave them.
    pub fn frame(
        &mut self,
        file_path: &Option<String>,
        text_in_view: bool,
        document: Option<&[u8]>,
        cur: StateId,
    ) -> (r: SemanticAction)
        requires
            old(self).next_id.0 < u64::MAX,
        ensures
            semantic_frame(
                *old(self),
                match file_path {
                    Some(p) => Some(p@),
                    None => None,
                },
                text_in_view,
                match document {
                    Some(d) => Some(d@),
                    None => None,
                },
                cur,
                *final(self),
                r,
            ),
    {
        let path = match file_path {
            Some(p) => p,
            None => {
                self.forget();
                return SemanticAction::Clear;
            },
        };
        let b = path.as_str().as_bytes();
        let n = b.len();
        let is_rust = n >= 3 && b[n - 3] == 46 && b[n - 2] == 114 && b[n - 1] == 115;
        if !is_rust {
            self.forget();
            return SemanticAction::Clear;
        }
        if !text_in_view {
            self.settle(path, cur, 0);
            return SemanticAction::Clear;
        }
        let doc = match document {
            Some(d) => d,
            None => {
                return SemanticAction::Keep;
            },
        };
        let same_path = match &self.last_path {
            Some(q) => *q == *path,
            None => false,
        };
        let same_state = match self.last_state {
            Some(s) => s.0 == cur.0,
            None => false,
        };
        if same_path && same_state && doc.len() == self.last_len {
            return SemanticAction::Keep;
        }
        let len = doc.len();
        if len == 0 || len as u64 >= MAX_SEMANTIC_BYTES {
            self.settle(path, cur, len);
            return SemanticAction::Clear;
        }
        let id = self.next_id;
        let request = SemanticRequest {
            content: utf8_lossy(doc),
            global_offset: DocByte(0),
            file_path: path.clone(),
            state_id: cur,
            request_id: id,
        };
        self.next_id = RequestId(id.0 + 1);
        self.last_state = Some(cur);
        self.last_len = len;
        self.last_path = Some(path.clone());
        self.pending = Some(id);
        SemanticAction::Send(request)
    }

    /// Takes an answer: its highlights when it answers the request waited for, made
    /// in the current undo state `cur`, after which no request is waited for; nothing,
    /// and no change, for any other answer.
    pub fn accept(&mut self, response: SemanticResponse, cur: StateId) -> (r: Option<
        Vec<HighlightSpan>,
    >)
        ensures
            ({
                let fits = old(self).pending == Some(response.request_id) && response.state_id
                    == cur;
                &&& fits ==> r == Some(response.highlights) && *final(self) == (SemanticGate {
                    pending: None,
                    ..*old(self)
                })
                &&& !fits ==> r is None && *final(self) == *old(self)
            }),
    {
        let fits = match self.pending {
            Some(p) => p.0 == response.request_id.0 && response.state_id.0 == cur.0,
            None => false,
        };
        if fits {
            self.pending = None;
            Some(response.highlights)
        } else {
            None
        }
    }
}

/// The kinds of symbol that semantic highlighting tells apart; `Other` stands for the
/// kinds it does not single out.
#[derive(Debug, Clone, Copy, PartialEq, Eq, Structural)]
pub enum SymbolKind {
    Attribute,
    BuiltinAttr,
    Const,
    ConstParam,
    CrateRoot,
    Derive,
    DeriveHelper,
    Enum,
    Field,
    Function,
    LifetimeParam,
    Local,
    Macro,
    Method,
    Module,
    ProcMacro,
    SelfParam,
    SelfType,
    Static,
    Struct,
    ToolModule,
    Trait,
    TypeAlias,
    TypeParam,
    Union,
    ValueParam,
    Variant,
    Other,
}

/// The tag of a semantic highlight.
#[derive(Debug, Clone, Copy, PartialEq, Eq, Structural)]
pub enum HlTag {
    Symbol(SymbolKind),
    AttributeBracket,
    BoolLiteral,
    BuiltinType,
    ByteLiteral,
    CharLiteral,
    Comment,
    EscapeSequence,
    FormatSpecifier,
    InvalidEscapeSequence,
    Keyword,
    NumericLiteral,
    Operator,
    Punctuation,
    StringLiteral,
    UnresolvedReference,
    Untagged,
}

/// A semantic highlight: its tag and the modifiers the classification reads.
#[derive(Debug, Clone, Copy)]
pub struct Highlight {
    pub tag: HlTag,
    pub crate_root: bool,
    pub library: bool,
    pub mutable: bool,
}

/// The category of a symbol kind when no modifier decides it.
pub open spec fn symbol_category(k: SymbolKind) -> TokenCategory {
    match k {
        SymbolKind::Method => TokenCategory::Method,
        SymbolKind::Function => TokenCategory::Function,
        SymbolKind::Struct | SymbolKind::Enum | SymbolKind::Union | SymbolKind::TypeAlias
        | SymbolKind::TypeParam | SymbolKind::Trait => TokenCategory::Type,
        SymbolKind::SelfParam | SymbolKind::SelfType => TokenCategory::SelfKeyword,
        SymbolKind::Local | SymbolKind::ValueParam | SymbolKind::Field => TokenCategory::Variable,
        SymbolKind::Const | SymbolKind::Static | SymbolKind::ConstParam | SymbolKind::Variant
            => TokenCategory::Constant,
        SymbolKind::Macro | SymbolKind::ProcMacro => TokenCategory::Macro,
        SymbolKind::Module | SymbolKind::CrateRoot | SymbolKind::ToolModule => TokenCategory::Module,
        SymbolKind::LifetimeParam => TokenCategory::Lifetime,
        SymbolKind::Attribute | SymbolKind::BuiltinAttr | SymbolKind::Derive
        | SymbolKind::DeriveHelper => TokenCategory::Attribute,
        SymbolKind::Other => TokenCategory::Unclassified,
    }
}

/// The category of a semantic highlight: modules and crate roots of the crate root or
/// of a library are crates; mutable locals, parameters and fields are mutable
/// variables; otherwise the tag decides.
pub open spec fn hl_category(h: Highlight) -> TokenCategory {
    if (h.crate_root || h.library) && (h.tag == HlTag::Symbol(SymbolKind::Module) || h.tag
        == HlTag::Symbol(SymbolKind::CrateRoot)) {
        TokenCategory::Crate
    } else if h.mutable && (h.tag == HlTag::Symbol(SymbolKind::Local) || h.tag == HlTag::Symbol(
        SymbolKind::ValueParam,
    ) || h.tag == HlTag::Symbol(SymbolKind::Field)) {
        TokenCategory::MutableVariable
    } else {
        match h.tag {
            HlTag::Symbol(k) => symbol_category(k),
            HlTag::BuiltinType => TokenCategory::BuiltinType,
            HlTag::Keyword | HlTag::BoolLiteral => TokenCategory::Keyword,
            HlTag::Comment => TokenCategory::Comment,
            HlTag::StringLiteral | HlTag::ByteLiteral | HlTag::CharLiteral
            | HlTag::EscapeSequence | HlTag::InvalidEscapeSequence | HlTag::FormatSpecifier
                => TokenCategory::String,
            HlTag::NumericLiteral => TokenCategory::Number,
            HlTag::Operator => TokenCategory::Operator,
            HlTag::Punctuation => TokenCategory::Punctuation,
            HlTag::AttributeBracket => TokenCategory::Attribute,
            HlTag::UnresolvedReference | HlTag::Untagged => TokenCategory::Unclassified,
        }
    }
}

fn symbol_category_of(k: SymbolKind) -> (r: TokenCategory)
    ensures
        r == symbol_category(k),
{
    match k {
        SymbolKind::Method => TokenCategory::Method,
        SymbolKind::Function => TokenCategory::Function,
        SymbolKind::Struct | SymbolKind::Enum | SymbolKind::Union | SymbolKind::TypeAlias
        | SymbolKind::TypeParam | SymbolKind::Trait => TokenCategory::Type,
        SymbolKind::SelfParam | SymbolKind::SelfType => TokenCategory::SelfKeyword,
        SymbolKind::Local | SymbolKind::ValueParam | SymbolKind::Field => TokenCategory::Variable,
        SymbolKind::Const | SymbolKind::Static | SymbolKind::ConstParam | SymbolKind::Variant
            => TokenCategory::Constant,
        SymbolKind::Macro | SymbolKind::ProcMacro => TokenCategory::Macro,
        SymbolKind::Module | SymbolKind::CrateRoot | SymbolKind::ToolModule => TokenCategory::Module,
        SymbolKind::LifetimeParam => TokenCategory::Lifetime,
        SymbolKind::Attribute | SymbolKind::BuiltinAttr | SymbolKind::Derive
        | SymbolKind::DeriveHelper => TokenCategory::Attribute,
        SymbolKind::Other => TokenCategory::Unclassified,
    }
}

/// The highlight category of a semantic highlight.
pub fn map_hl_tag(highlight: Highlight) -> (r: TokenCategory)
    ensures
        r == hl_category(highlight),
{
    let tag = highlight.tag;
    if highlight.crate_root || highlight.library {
        match tag {
            HlTag::Symbol(SymbolKind::Module) | HlTag::Symbol(SymbolKind::CrateRoot) => {
                return TokenCategory::Crate;
            },
            _ => {},
        }
    }
    if highlight.mutable {
        match tag {
            HlTag::Symbol(SymbolKind::Local) | HlTag::Symbol(SymbolKind::ValueParam)
            | HlTag::Symbol(SymbolKind::Field) => {
                return TokenCategory::MutableVariable;
            },
            _ => {},
        }
    }
    match tag {
        HlTag::Symbol(k) => symbol_category_of(k),
        HlTag::BuiltinType => TokenCategory::BuiltinType,
        HlTag::Keyword | HlTag::BoolLiteral => TokenCategory::Keyword,
        HlTag::Comment => TokenCategory::Comment,
        HlTag::StringLiteral | HlTag::ByteLiteral | HlTag::CharLiteral | HlTag::EscapeSequence
        | HlTag::InvalidEscapeSequence | HlTag::FormatSpecifier => TokenCategory::String,
        HlTag::NumericLiteral => TokenCategory::Number,
        HlTag::Operator => TokenCategory::Operator,
        HlTag::Punctuation => TokenCategory::Punctuation,
        HlTag::AttributeBracket => TokenCategory::Attribute,
        HlTag::UnresolvedReference | HlTag::Untagged => TokenCategory::Unclassified,
    }
}

} // verus!
