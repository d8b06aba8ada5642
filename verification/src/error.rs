//! Failures of talking to a cluster.
use vstd::prelude::*;
#[allow(unused_imports)]
use vstd::string::*;

verus! {

/// A failed request to the API server.
#[derive(Debug)]
pub enum KubeError {
    /// The server answered with an error status.
    Api { code: u16, text: String },
    /// The request failed otherwise.
    Other { text: String },
}

/// What makes a run fail.
#[derive(Debug)]
pub enum LornError {
    /// A request to the API server failed.
    Kube(KubeError),
    /// The kubeconfig file could not be used.
    KubeConfig(String),
    /// No configuration could be found.
    InferConfig(String),
}

impl KubeError {
    /// The status code of the server's answer, if the server answered.
    pub open spec fn status(self) -> Option<u16> {
        match self {
            KubeError::Api { code, .. } => Some(code),
            KubeError::Other { .. } => None,
        }
    }

    /// The description of the failure.
    pub open spec fn description(self) -> Seq<char> {
        match self {
            KubeError::Api { text, .. } => text@,
            KubeError::Other { text } => text@,
        }
    }
}

impl LornError {
    /// Whether the server answered with a status from 500 to 599.
    pub open spec fn transient(self) -> bool {
        match self {
            LornError::Kube(error) => match error.status() {
                Some(code) => 500 <= code < 600,
                None => false,
            },
            _ => false,
        }
    }

    /// The line that describes the failure.
    pub open spec fn message(self) -> Seq<char> {
        match self {
            LornError::Kube(error) => "kube error: "@ + error.description(),
            LornError::KubeConfig(text) => "kube config error: "@ + text@,
            LornError::InferConfig(text) => "infer config error: "@ + text@,
        }
    }

    /// Whether this error looks transient enough to be worth retrying: the
    /// server answered with a 5xx status.
    pub fn is_retryable(&self) -> (retryable: bool)
        ensures
            retryable == self.transient(),
    {
        match self {
            LornError::Kube(KubeError::Api { code, .. }) => 500 <= *code && *code < 600,
            _ => false,
        }
    }

    /// The line that describes the failure.
    pub fn to_string(&self) -> (text: String)
        ensures
            text@ == self.message(),
    {
        match self {
            LornError::Kube(KubeError::Api { text, .. }) => {
                "kube error: ".to_owned().concat(text.as_str())
            },
            LornError::Kube(KubeError::Other { text }) => {
                "kube error: ".to_owned().concat(text.as_str())
            },
            LornError::KubeConfig(text) => "kube config error: ".to_owned().concat(text.as_str()),
            LornError::InferConfig(text) => {
                "infer config error: ".to_owned().concat(text.as_str())
            },
        }
    }
}

/// A failure is worth another try exactly where the server answered with a
/// status in the five hundreds, whatever its description says.
pub proof fn law_transient(code: u16, text: String, other: String)
    ensures
        LornError::Kube(KubeError::Api { code, text }).transient() <==> code / 100 == 5,
        LornError::Kube(KubeError::Api { code, text }).transient() == LornError::Kube(
            KubeError::Api { code, text: other },
        ).transient(),
        !LornError::Kube(KubeError::Other { text }).transient(),
        !LornError::KubeConfig(text).transient(),
        !LornError::InferConfig(text).transient(),
{
}

/// The line for a failure says what failed and ends with the description; the
/// status of an answer does not show in it.
pub proof fn law_messages(code: u16, text: String)
    ensures
        LornError::Kube(KubeError::Other { text }).message() == "kube error: "@ + text@,
        LornError::Kube(KubeError::Api { code, text }).message() == LornError::Kube(
            KubeError::Other { text },
        ).message(),
        LornError::KubeConfig(text).message() == "kube config error: "@ + text@,
        LornError::InferConfig(text).message() == "infer config error: "@ + text@,
        (KubeError::Api { code, text }).status() == Some(code),
        (KubeError::Other { text }).status() is None,
{
}


} // verus!
