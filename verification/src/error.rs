use vstd::prelude::*;

verus! {

#[verifier::external_type_specification]
#[verifier::external_body]
pub struct ExIoError(std::io::Error);

/// Why a voice datagram could not be decrypted.
#[derive(Debug)]
pub enum DecryptError {
    /// Reading the datagram failed.
    Io(std::io::Error),
    /// The datagram ended too early.
    Eof,
    /// The client sent a packet it had already sent.
    Repeat,
    /// The packet came in late.
    Late,
    /// The packet's authentication tag is wrong.
    Mac,
}

/// Why a client is removed from the server.
#[derive(Debug, Clone, Copy, PartialEq, Eq, Structural)]
pub enum DisconnectReason {
    Disconnected,
    ClientTimedOutTcp,
    LostReceivingChannel,
    ClientMSPCFull,
}

impl DisconnectReason {
    /// The human-readable text of a reason; it is also the metrics label of the reason.
    pub open spec fn text(self) -> Seq<char> {
        match self {
            DisconnectReason::Disconnected => "Client disconnected"@,
            DisconnectReason::ClientTimedOutTcp => "Client stopped responding to TCP pings"@,
            DisconnectReason::LostReceivingChannel => "Clients receiving channel got removed"@,
            DisconnectReason::ClientMSPCFull => "Client Message Channel Full"@,
        }
    }

    /// Returns the `'static` text of this reason without allocating.
    pub fn as_str(&self) -> (s: &'static str)
        ensures
            s@ == self.text(),
    {
        match self {
            DisconnectReason::Disconnected => "Client disconnected",
            DisconnectReason::ClientTimedOutTcp => "Client stopped responding to TCP pings",
            DisconnectReason::LostReceivingChannel => "Clients receiving channel got removed",
            DisconnectReason::ClientMSPCFull => "Client Message Channel Full",
        }
    }

    /// The text of this reason as an owned string: the same text as `as_str`.
    pub fn to_string(&self) -> (s: String)
        ensures
            s@ == self.text(),
    {
        self.as_str().to_owned()
    }
}

/// Two different reasons never share a text, so each reason has a metrics label of its own.
pub proof fn lemma_reason_texts_distinct(a: DisconnectReason, b: DisconnectReason)
    ensures
        a != b ==> a.text() != b.text(),
{
    reveal_strlit("Client disconnected");
    reveal_strlit("Client stopped responding to TCP pings");
    reveal_strlit("Clients receiving channel got removed");
    reveal_strlit("Client Message Channel Full");
    assert(DisconnectReason::Disconnected.text().len() == 19);
    assert(DisconnectReason::ClientTimedOutTcp.text().len() == 38);
    assert(DisconnectReason::LostReceivingChannel.text().len() == 37);
    assert(DisconnectReason::ClientMSPCFull.text().len() == 27);
}

} // verus!
