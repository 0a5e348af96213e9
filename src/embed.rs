//! The embedder's configuration: which provider embeds, and what the remote
//! provider needs.
use vstd::prelude::*;

use crate::text::push_char;

verus! {

/// The remote embedding service: its URL, optional bearer key and optional
/// model name.
#[derive(Clone, Debug)]
pub struct ExternalEmbedder {
    pub url: String,
    pub api_key: Option<String>,
    pub model_hint: Option<String>,
}

/// Why the embedder cannot be configured.
#[derive(Clone, Copy, Debug, PartialEq, Eq, Structural)]
pub enum EmbedConfigError {
    /// The remote embedder needs a URL.
    MissingUrl,
}

impl ExternalEmbedder {
    /// A remote embedder from its settings; a URL is required.
    pub fn new(url: Option<String>, api_key: Option<String>, model_hint: Option<String>) -> (r: Result<ExternalEmbedder, EmbedConfigError>)
        ensures
            url is None <==> r is Err,
            r matches Ok(e) ==> url matches Some(u) && e.url == u && e.api_key == api_key && e.model_hint == model_hint,
    {
        match url {
            Some(u) => Ok(ExternalEmbedder { url: u, api_key, model_hint }),
            None => Err(EmbedConfigError::MissingUrl),
        }
    }

    /// The `Authorization` header value, when a key is configured.
    pub fn authorization(&self) -> (r: Option<String>)
        ensures
            r is Some <==> self.api_key is Some,
            r matches Some(h) ==> h@ == seq!['B', 'e', 'a', 'r', 'e', 'r', ' '] + self.api_key->0@,
    {
        match &self.api_key {
            Some(k) => {
                let mut h = String::new();
                push_char(&mut h, 'B');
                push_char(&mut h, 'e');
                push_char(&mut h, 'a');
                push_char(&mut h, 'r');
                push_char(&mut h, 'e');
                push_char(&mut h, 'r');
                push_char(&mut h, ' ');
                h.append(k.as_str());
                Some(h)
            },
            None => None,
        }
    }
}

/// Which embedder serves the process.
#[derive(Clone, Copy, Debug, PartialEq, Eq, Structural)]
pub enum EmbedderKind {
    Local,
    External,
}

/// The remote embedder is used exactly when its URL is configured.
pub fn choose_embedder(url_configured: bool) -> (k: EmbedderKind)
    ensures
        k == (if url_configured { EmbedderKind::External } else { EmbedderKind::Local }),
{
    if url_configured {
        EmbedderKind::External
    } else {
        EmbedderKind::Local
    }
}

} // verus!
