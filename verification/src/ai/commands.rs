//! The stored configuration of an AI provider and the choice of the
//! provider to talk to.
use vstd::prelude::*;
use crate::text::{chars_of, push_all, string_of};
use crate::iptv::opt_view;

verus! {

/// A configured AI provider, as listed to the user (the key itself is
/// never shown, only whether one is stored).
pub struct AiProviderConfig {
    pub id: String,
    pub kind: String,
    pub label: String,
    pub model: String,
    pub base_url: Option<String>,
    pub active: bool,
    pub has_api_key: bool,
}

/// The provider to instantiate, with what it needs.
#[allow(inconsistent_fields)]
pub enum ProviderSpec {
    Gemini { api_key: String, model: String },
    OpenAiCompatible { base_url: String, api_key: Option<String>, model: String },
}

/// `s` without its trailing `/` characters (`trim_end_matches('/')`).
pub open spec fn trim_end_slashes(s: Seq<char>) -> Seq<char>
    decreases s.len(),
{
    if s.len() > 0 && s.last() == '/' {
        trim_end_slashes(s.drop_last())
    } else {
        s
    }
}

/// `s` without its trailing `/` characters.
pub fn trim_trailing_slashes(s: &str) -> (r: String)
    ensures
        r@ == trim_end_slashes(s@),
{
    let v = chars_of(s);
    let mut e = v.len();
    assert(v@.subrange(0, v@.len() as int) =~= v@);
    while e > 0 && v[e - 1] == '/'
        invariant
            e <= v@.len(),
            trim_end_slashes(v@) == trim_end_slashes(v@.subrange(0, e as int)),
        decreases e,
    {
        assert(v@.subrange(0, e as int).drop_last() =~= v@.subrange(0, e - 1));
        e -= 1;
    }
    assert(trim_end_slashes(v@.subrange(0, e as int)) == v@.subrange(0, e as int));
    string_of(&v, 0, e)
}

/// The message for a provider kind that is not known.
pub open spec fn unknown_kind_error(kind: Seq<char>) -> Seq<char> {
    "kind de proveedor de IA desconocido: "@ + kind
}

/// The provider to build from a stored configuration: Gemini needs an API
/// key; an OpenAI-compatible server needs a base URL (kept without its
/// trailing `/`) and may have a key; any other kind is refused.
pub fn build_provider(kind: &str, model: String, base_url: Option<String>, api_key: Option<String>) -> (r: Result<
    ProviderSpec,
    String,
>)
    ensures
        kind@ == "gemini"@ ==> match r {
            Ok(ProviderSpec::Gemini { api_key: k, model: m }) => api_key is Some && k@ == api_key->0@ && m@ == model@,
            Ok(_) => false,
            Err(e) => api_key is None && e@ == "el proveedor Gemini activo no tiene API key en el keychain"@,
        },
        kind@ == "openai_compatible"@ ==> match r {
            Ok(ProviderSpec::OpenAiCompatible { base_url: b, api_key: k, model: m }) => base_url is Some && b@
                == trim_end_slashes(base_url->0@) && opt_view(k) == opt_view(api_key) && m@ == model@,
            Ok(_) => false,
            Err(e) => base_url is None && e@ == "el proveedor openai_compatible activo no tiene base_url"@,
        },
        kind@ != "gemini"@ && kind@ != "openai_compatible"@ ==> match r {
            Ok(_) => false,
            Err(e) => e@ == unknown_kind_error(kind@),
        },
{
    proof {
        reveal_strlit("gemini");
        reveal_strlit("openai_compatible");
        assert("gemini"@.len() != "openai_compatible"@.len());
    }
    let k = kind.to_owned();
    if k == "gemini".to_owned() {
        match api_key {
            Some(key) => Ok(ProviderSpec::Gemini { api_key: key, model }),
            None => Err("el proveedor Gemini activo no tiene API key en el keychain".to_owned()),
        }
    } else if k == "openai_compatible".to_owned() {
        match base_url {
            Some(b) => {
                let t = trim_trailing_slashes(b.as_str());
                assert(t@ == trim_end_slashes(b@));
                let ghost kv = opt_view(api_key);
                let spec = ProviderSpec::OpenAiCompatible { base_url: t, api_key, model };
                assert(spec matches ProviderSpec::OpenAiCompatible { api_key: k, .. } && opt_view(k) == kv);
                Ok(spec)
            },
            None => Err("el proveedor openai_compatible activo no tiene base_url".to_owned()),
        }
    } else {
        let mut e = "kind de proveedor de IA desconocido: ".to_owned();
        push_all(&mut e, kind);
        Err(e)
    }
}

/// A new provider must be of a known kind, and an OpenAI-compatible one
/// needs a base URL.
pub fn check_new_provider(kind: &str, base_url: Option<&str>) -> (r: Result<(), String>)
    ensures
        kind@ != "gemini"@ && kind@ != "openai_compatible"@ ==> (r matches Err(e) && e@ == "kind inválido: "@
            + kind@),
        kind@ == "gemini"@ ==> r is Ok,
        kind@ == "openai_compatible"@ ==> match base_url {
            Some(b) if b@.len() > 0 => r is Ok,
            _ => r matches Err(e) && e@
                == "openai_compatible requiere base_url (ej. http://localhost:11434/v1 para Ollama)"@,
        },
{
    proof {
        reveal_strlit("gemini");
        reveal_strlit("openai_compatible");
        assert("gemini"@.len() != "openai_compatible"@.len());
    }
    let k = kind.to_owned();
    if !(k == "gemini".to_owned()) && !(k == "openai_compatible".to_owned()) {
        let mut e = "kind inválido: ".to_owned();
        push_all(&mut e, kind);
        return Err(e);
    }
    if k == "openai_compatible".to_owned() {
        let missing = match base_url {
            Some(b) => b.is_empty(),
            None => true,
        };
        if missing {
            return Err("openai_compatible requiere base_url (ej. http://localhost:11434/v1 para Ollama)".to_owned());
        }
    }
    Ok(())
}

/// The API key to keep in the keychain: none when it is empty.
pub fn api_key_to_store(api_key: Option<String>) -> (r: Option<String>)
    ensures
        match api_key {
            Some(k) if k@.len() > 0 => r == Some(k),
            _ => r is None,
        },
{
    match api_key {
        Some(k) => if k.as_str().is_empty() {
            None
        } else {
            Some(k)
        },
        None => None,
    }
}

} // verus!
