use vstd::prelude::*;
use crate::error::QuinnetError;

verus! {

/// A decision on a certificate that could not be validated automatically.
#[derive(Debug, Clone, Copy, PartialEq, Eq, Structural)]
pub enum CertificateAction {
    /// Accept the certificate and trust it from now on.
    TrustAndAccept,
    /// Accept the certificate for this connection only.
    AcceptOnly,
    /// Reject the certificate and abort the connection.
    Abort,
}

/// What a certificate interaction holds: the server it concerns, the
/// fingerprint it presented, and the decision applied to it, if any.
pub struct CertificateInteractionModel {
    pub server_name: Seq<char>,
    pub fingerprint: Seq<u8>,
    pub decision: Option<CertificateAction>,
}

/// The interaction after applying `action` to `m`: a pending interaction
/// takes the decision, a decided one keeps the one it has.
pub open spec fn after_apply(m: CertificateInteractionModel, action: CertificateAction) -> CertificateInteractionModel {
    if m.decision.is_none() {
        CertificateInteractionModel { decision: Some(action), ..m }
    } else {
        m
    }
}

/// The result of applying a decision to `m`.
pub open spec fn apply_result(m: CertificateInteractionModel) -> Result<(), QuinnetError> {
    if m.decision.is_none() {
        Ok(())
    } else {
        Err(QuinnetError::CertificateActionAlreadyApplied)
    }
}

/// Raised when a peer certificate cannot be validated automatically. It is a
/// one-shot token: it starts pending, and exactly one decision can be applied
/// to it.
pub struct CertificateInteractionEvent {
    server_name: String,
    fingerprint: Vec<u8>,
    decision: Option<CertificateAction>,
}

impl View for CertificateInteractionEvent {
    type V = CertificateInteractionModel;

    closed spec fn view(&self) -> CertificateInteractionModel {
        CertificateInteractionModel {
            server_name: self.server_name@,
            fingerprint: self.fingerprint@,
            decision: self.decision,
        }
    }
}

impl CertificateInteractionEvent {
    /// A pending interaction about the certificate with `fingerprint` that
    /// `server_name` presented.
    pub fn new(server_name: String, fingerprint: Vec<u8>) -> (r: CertificateInteractionEvent)
        ensures
            r@.server_name == server_name@,
            r@.fingerprint == fingerprint@,
            r@.decision.is_none(),
    {
        CertificateInteractionEvent { server_name, fingerprint, decision: None }
    }

    /// Applies `action`. The first decision is taken; any later one fails
    /// with `CertificateActionAlreadyApplied` and leaves the first in place.
    pub fn apply_cert_action(&mut self, action: CertificateAction) -> (r: Result<(), QuinnetError>)
        ensures
            final(self)@ == after_apply(old(self)@, action),
            r == apply_result(old(self)@),
    {
        if self.decision.is_some() {
            Err(QuinnetError::CertificateActionAlreadyApplied)
        } else {
            self.decision = Some(action);
            Ok(())
        }
    }

    /// The decision applied so far, if any.
    pub fn decision(&self) -> (r: Option<CertificateAction>)
        ensures
            r == self@.decision,
    {
        self.decision
    }

    /// Whether a decision has been applied.
    pub fn is_applied(&self) -> (r: bool)
        ensures
            r == self@.decision.is_some(),
    {
        self.decision.is_some()
    }

    /// The name of the server that presented the certificate.
    pub fn server_name(&self) -> (r: &String)
        ensures
            r@ == self@.server_name,
    {
        &self.server_name
    }

    /// The fingerprint of the presented certificate.
    pub fn fingerprint(&self) -> (r: &Vec<u8>)
        ensures
            r@ == self@.fingerprint,
    {
        &self.fingerprint
    }
}

/// Once a decision has been applied to an interaction, applying a second one
/// fails with `CertificateActionAlreadyApplied` and the first decision stays.
pub proof fn lemma_second_decision_rejected(
    m: CertificateInteractionModel,
    first: CertificateAction,
    second: CertificateAction,
)
    requires
        m.decision.is_none(),
    ensures
        apply_result(m) == Ok::<(), QuinnetError>(()),
        after_apply(m, first).decision == Some(first),
        apply_result(after_apply(m, first)) == Err::<(), QuinnetError>(
            QuinnetError::CertificateActionAlreadyApplied,
        ),
        after_apply(after_apply(m, first), second) == after_apply(m, first),
{
}

} // verus!
