//! An HTTP generation client bound to named providers through type states.
//!
//! The engine does not depend on this client; it is a collaborator for
//! user-authored node logic. Provider bindings are tracked in the type, so
//! that querying a provider can be gated on the binding at compile time.

use core::marker::PhantomData;
use vstd::prelude::*;

verus! {

/// Type state: a provider the client holds a configuration for.
pub struct Enabled;

/// Type state: a provider the client holds no configuration for.
pub struct Disabled;

/// Marker carrying, per supported provider, whether the client is bound to
/// it.
pub struct Providers<OllamaState> {
    _ollama: PhantomData<OllamaState>,
}

/// The Ollama provider.
pub struct Ollama;

/// Marker trait gating provider-specific queries on the client state that
/// holds that provider's configuration.
pub trait HasProvider<Provider> {
}

impl HasProvider<Ollama> for Providers<Enabled> {
}

/// An HTTP client bound to generation providers; which providers are bound
/// is carried by the type parameter.
pub struct LlmClient<S> {
    client: reqwest::Client,
    state: PhantomData<S>,
    ollama_host: Option<String>,
}

/// Relies on `reqwest::Client::new`: constructs a fresh HTTP client with
/// default settings. Its documented panic concerns TLS backends and system
/// resolvers, which the feature set this crate builds reqwest with does not
/// enable.
#[verifier::external_body]
fn new_http_client() -> reqwest::Client {
    reqwest::Client::new()
}

impl<S> LlmClient<S> {
    /// The host this client is configured to query Ollama at, if any.
    pub closed spec fn host_model(self) -> Option<Seq<char>> {
        match self.ollama_host {
            Some(h) => Some(h@),
            None => None,
        }
    }

    /// The host this client queries Ollama at, if one is bound.
    pub fn ollama_host(&self) -> (r: Option<&String>)
        ensures
            match r {
                Some(h) => self.host_model() == Some(h@),
                None => self.host_model() is None,
            },
    {
        self.ollama_host.as_ref()
    }
}

impl LlmClient<Providers<Disabled>> {
    /// A client bound to no provider yet.
    pub fn new() -> (r: LlmClient<Providers<Disabled>>)
        ensures
            r.host_model() is None,
    {
        LlmClient { client: new_http_client(), state: PhantomData, ollama_host: None }
    }

    /// Binds the Ollama configuration, moving the client to a state whose
    /// provider-gated queries are available.
    pub fn with_ollama(self, host: &str) -> (r: LlmClient<Providers<Enabled>>)
        ensures
            r.host_model() == Some(host@),
    {
        LlmClient { client: self.client, state: PhantomData, ollama_host: Some(host.to_owned()) }
    }
}

impl Default for LlmClient<Providers<Disabled>> {
    /// A client bound to no provider yet.
    fn default() -> (r: Self)
        ensures
            r.host_model() is None,
    {
        LlmClient::new()
    }
}

} // verus!
