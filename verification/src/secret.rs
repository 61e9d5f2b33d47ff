//! Secrets, where they come from, and what resolves them.
//!
//! A `Secret` has no text form that holds its value, and its bytes are only
//! reachable inside this crate.
use vstd::prelude::*;
use vstd::string::*;

use crate::text::{copy_opt, join2, join3, quoted};

verus! {

/// A secret value. Its memory is overwritten when it is dropped.
#[verifier::external_body]
pub struct Secret(zeroize::Zeroizing<Vec<u8>>);

/// The bytes that a secret holds.
pub uninterp spec fn secret_bytes(s: Secret) -> Seq<u8>;

impl View for Secret {
    type V = Seq<u8>;

    open spec fn view(&self) -> Seq<u8> {
        secret_bytes(*self)
    }
}

impl Secret {
    /// Trusts `zeroize::Zeroizing::new`: the value holds the bytes it was given.
    #[verifier::external_body]
    pub fn new(bytes: Vec<u8>) -> (r: Self)
        ensures
            secret_bytes(r) == bytes@,
    {
        Secret(zeroize::Zeroizing::new(bytes))
    }

    /// Trusts `Deref` of `zeroize::Zeroizing`: it gives the bytes held. For the
    /// swap engine alone, which never hands them on.
    #[verifier::external_body]
    pub(crate) fn expose_for_swap(&self) -> (r: &[u8])
        ensures
            r@ == secret_bytes(*self),
    {
        self.0.as_slice()
    }

    /// The text form of any secret.
    pub fn to_text(&self) -> (r: String)
        ensures
            r@ == "Secret(<redacted>)"@,
    {
        "Secret(<redacted>)".to_owned()
    }

    pub(crate) fn copy(&self) -> (r: Secret)
        ensures
            r@ == self@,
    {
        let bytes = self.expose_for_swap();
        let mut v: Vec<u8> = Vec::new();
        v.extend_from_slice(bytes);
        assert(v@ == bytes@);
        Secret::new(v)
    }
}

/// Where a secret comes from. The variable or path is the only form in which a
/// secret is named in traces, errors and audit records.
#[derive(Debug)]
pub enum SourceKind {
    Env { var: String },
    File { path: String },
}

/// What a source kind says.
#[verifier::ext_equal]
pub enum SourceKindView {
    Env { var: Seq<char> },
    File { path: Seq<char> },
}

impl View for SourceKind {
    type V = SourceKindView;

    open spec fn view(&self) -> SourceKindView {
        match self {
            SourceKind::Env { var } => SourceKindView::Env { var: var@ },
            SourceKind::File { path } => SourceKindView::File { path: path@ },
        }
    }
}

/// A reference to a secret's source.
#[derive(Debug)]
pub struct SourceRef {
    pub kind: SourceKind,
    /// Read the value as JSON and take this top-level text field.
    pub json_key: Option<String>,
    /// How long a success is kept of a file, in milliseconds; `None`: for good. A
    /// variable is always kept for good.
    pub ttl: Option<u128>,
    /// How long a failure is kept, in milliseconds; `None`: a minute.
    pub failure_ttl: Option<u128>,
}

/// What a source reference says.
#[verifier::ext_equal]
pub struct SourceView {
    pub kind: SourceKindView,
    pub json_key: Option<Seq<char>>,
    pub ttl: Option<u128>,
    pub failure_ttl: Option<u128>,
}

impl View for SourceRef {
    type V = SourceView;

    open spec fn view(&self) -> SourceView {
        SourceView {
            kind: self.kind@,
            json_key: crate::text::opt_text(self.json_key),
            ttl: self.ttl,
            failure_ttl: self.failure_ttl,
        }
    }
}

/// The name of a source: its variable or its path.
pub open spec fn source_name(s: SourceView) -> Seq<char> {
    match s.kind {
        SourceKindView::Env { var } => var,
        SourceKindView::File { path } => path,
    }
}

impl SourceRef {
    /// The name that may stand in audit records.
    pub fn name(&self) -> (r: &str)
        ensures
            r@ == source_name(self@),
    {
        match &self.kind {
            SourceKind::Env { var } => var.as_str(),
            SourceKind::File { path } => path.as_str(),
        }
    }

    pub fn copy(&self) -> (r: SourceRef)
        ensures
            r@ == self@,
    {
        let kind = match &self.kind {
            SourceKind::Env { var } => SourceKind::Env { var: var.clone() },
            SourceKind::File { path } => SourceKind::File { path: path.clone() },
        };
        SourceRef {
            kind,
            json_key: copy_opt(&self.json_key),
            ttl: self.ttl,
            failure_ttl: self.failure_ttl,
        }
    }
}

/// A source that could not be resolved, and why. It never holds the value.
#[derive(Debug)]
pub struct ResolveError {
    pub source: SourceRef,
    pub reason: String,
}

impl ResolveError {
    /// The error as shown to an operator.
    pub fn to_text(&self) -> (r: String)
        ensures
            r@ == "secret source "@ + crate::text::quoted_text(source_name(self.source@))
                + " failed to resolve: "@ + self.reason@,
    {
        let head = join3(
            "secret source ",
            quoted(self.source.name()).as_str(),
            " failed to resolve: ",
        );
        join2(head.as_str(), self.reason.as_str())
    }
}

/// The bytes of a resolved secret; `None` where it could not be resolved.
pub open spec fn answer_of(r: Result<Secret, ResolveError>) -> Option<Seq<u8>> {
    match r {
        Ok(s) => Some(s@),
        Err(_) => None,
    }
}

/// Resolves secrets at request time. Input and output reach the pipeline only
/// through this trait.
pub trait SecretResolver {
    /// An answer that resolving the source may give: any, unless a resolver says
    /// more of itself.
    open spec fn may_answer(&self, source: SourceView, answer: Option<Seq<u8>>) -> bool {
        true
    }

    fn resolve(&self, source: &SourceRef) -> (r: Result<Secret, ResolveError>)
        ensures
            self.may_answer(source@, answer_of(r)),
    ;
}

/// The resolver of a pipeline without secrets: it resolves nothing.
#[derive(Debug, Clone, Copy)]
pub struct NoResolver;

impl SecretResolver for NoResolver {
    open spec fn may_answer(&self, source: SourceView, answer: Option<Seq<u8>>) -> bool {
        answer is None
    }

    fn resolve(&self, source: &SourceRef) -> (r: Result<Secret, ResolveError>)
        ensures
            r matches Err(e) && e.source@ == source@ && e.reason@ == "no resolver"@,
    {
        Err(ResolveError { source: source.copy(), reason: "no resolver".to_owned() })
    }
}

} // verus!
