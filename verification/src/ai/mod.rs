//! The AI providers' side of the application: the texts sent to a
//! provider for curation, how a provider is chosen from its stored
//! configuration, where the JSON object of a reply is framed, and the
//! curation decisions themselves (see `curation`).
use vstd::prelude::*;
use crate::text::{
    chars_of, decimal, find_char_exec, push_all, push_decimal, rfind_char, rfind_char_exec,
    find_char, lemma_find_char, lemma_rfind_char, string_of, trim, trim_bounds,
};
use crate::iptv::opt_view;

pub mod curation;
pub mod keychain;
pub mod commands;

verus! {

/// The instructions of a call that reads a search in natural language.
pub const PARSE_QUERY_SYSTEM_PROMPT: &'static str = "Sos un extractor de parámetros de búsqueda de video (películas, series, documentales). \
A partir del texto en lenguaje natural del usuario, devolvé ÚNICAMENTE un objeto JSON con esta forma exacta, sin texto adicional: \
{\"title\": string, \"year\": number|null, \"genre\": string|null}. \
`title` es el título del contenido tal como lo escribiría el usuario, sin el año ni el género incluidos. \
Nunca incluyas URLs, nombres de sitios web, nombres de indexers, ni sugerencias de dónde buscar — tu única tarea es extraer estos tres campos.";

/// The instructions of a curation of search results.
pub const CURATE_RESULTS_SYSTEM_PROMPT: &'static str = "Sos un filtro de relevancia para resultados de búsqueda de video (películas, series, documentales). \
Se te da una búsqueda y una lista numerada de títulos candidatos tal como aparecen en un índice real, con ruido: uploads no relacionados, duplicados, contenido ajeno al pedido. \
Devolvé ÚNICAMENTE un objeto JSON con esta forma exacta, sin texto adicional: {\"indices\": [number, ...]}. \
`indices` son los índices (enteros, base 0) de los candidatos que son coincidencias razonables para la búsqueda, ordenados del más al menos relevante. \
No inventes índices que no estén en la lista de candidatos. Si ningún candidato es relevante, devolvé {\"indices\": []}. \
Nunca agregues texto, explicación ni markdown fuera del objeto JSON.";

/// The instructions of a curation by hint, with absolute scores.
pub const CURATE_BY_HINT_SYSTEM_PROMPT: &'static str = "Sos un filtro de curación para listas de contenido agregadas de internet (canales de TV en vivo o catálogo de video), que mezclan entradas legítimas con basura, duplicados, entradas rotas o de dudosa procedencia. \
Se te da un criterio de curación y una lista numerada de candidatos (nombre de canal o título, con categoría/género entre paréntesis cuando está disponible). \
Devolvé ÚNICAMENTE un objeto JSON con esta forma exacta, sin texto adicional: {\"items\": [{\"index\": number, \"score\": number}, ...]}. \
`index` es el índice (entero, base 0) del candidato sobre la lista dada. `score` es un puntaje entero de 0 a 100 que mide qué tan bien ese candidato cumple el criterio dado: 100 significa que lo cumple perfectamente, 0 que no lo cumple en absoluto. \
El puntaje tiene que ser ABSOLUTO, no relativo a los demás candidatos de esta lista puntual — se va a comparar contra puntajes que vos mismo (u otra instancia tuya) le asignes a otros candidatos en llamadas completamente separadas, posiblemente días después, así que aplicá siempre el mismo criterio de 0 a 100 sin ajustarlo a lo que veas en esta tanda en particular. \
Si el criterio pide verificar legitimidad como radiodifusor público/oficial, juzgalo por el nombre y la categoría — puntuá bajo (cerca de 0) spam, placeholders, duplicados evidentes y canales comerciales/privados sin relación con radiodifusión pública. \
Si el criterio pide contenido real de un catálogo (ej. películas), puntuá bajo archivos de prueba, demos técnicos, vlogs genéricos y entradas rotas o sin relación evidente con el criterio. \
Si no se da ningún criterio, aplicá el criterio de legitimidad/calidad que mejor corresponda al tipo de candidatos dado. \
Solo incluí en `items` los candidatos con score mayor a 0 — omití directamente (no incluyas en la lista) los que no cumplen el criterio en absoluto. No inventes índices que no estén en la lista de candidatos. Si ningún candidato cumple el criterio, devolvé {\"items\": []}. \
Nunca sugieras sitios, URLs, ni agregues texto, explicación o markdown fuera del objeto JSON.";

/// The worked example given with a curation by hint: the user turn…
pub const CURATE_BY_HINT_EXAMPLE_USER: &'static str =
    "Criterio: radiodifusores públicos oficiales\n\nCandidatos:\n0: Radio Nacional (Noticias)\n1: MegaVideos XXX (Adultos)\n2: Radio Nacional (Noticias)";

/// …and the answer expected for it.
pub const CURATE_BY_HINT_EXAMPLE_ASSISTANT: &'static str = "{\"items\": [{\"index\": 0, \"score\": 95}]}";

/// A search in natural language, as a provider interprets it.
pub struct StructuredQuery {
    pub title: String,
    pub year: Option<i32>,
    pub genre: Option<String>,
}

/// A candidate that a curation by hint kept, with its absolute score.
pub struct ScoredCandidate {
    pub index: usize,
    pub score: i32,
}

/// `index: text`, one line of a numbered candidate list.
pub open spec fn numbered_line(i: nat, t: Seq<char>) -> Seq<char> {
    decimal(i) + ": "@ + t
}

/// The candidates as numbered lines (from 0) joined by `\n`.
pub open spec fn numbered_list(c: Seq<Seq<char>>) -> Seq<char>
    decreases c.len(),
{
    if c.len() == 0 {
        seq![]
    } else if c.len() == 1 {
        numbered_line(0, c[0])
    } else {
        numbered_list(c.drop_last()) + "\n"@ + numbered_line((c.len() - 1) as nat, c.last())
    }
}

pub open spec fn views(c: Seq<String>) -> Seq<Seq<char>> {
    c.map_values(|s: String| s@)
}

fn numbered_list_exec(candidates: &Vec<String>) -> (r: String)
    ensures
        r@ == numbered_list(views(candidates@)),
{
    let ghost c = views(candidates@);
    let mut out = String::new();
    let mut i: usize = 0;
    let n: usize = candidates.len();
    assert(n as int <= u64::MAX) by (bit_vector);
    while i < candidates.len()
        invariant
            i <= candidates@.len() <= u64::MAX,
            c == views(candidates@),
            out@ == numbered_list(c.take(i as int)),
        decreases candidates@.len() - i,
    {
        proof {
            assert(c.take(i + 1).drop_last() =~= c.take(i as int));
            assert(c.take(i + 1).last() == candidates@[i as int]@);
        }
        if i > 0 {
            push_all(&mut out, "\n");
        }
        push_decimal(&mut out, i as u64);
        push_all(&mut out, ": ");
        push_all(&mut out, candidates[i].as_str());
        i += 1;
        assert(out@ =~= numbered_list(c.take(i as int)));
    }
    assert(c.take(i as int) =~= c);
    out
}

/// The user text of a curation call for a search.
pub open spec fn curation_user_text(title: Seq<char>, c: Seq<Seq<char>>) -> Seq<char> {
    "Búsqueda: "@ + title + "\n\nCandidatos:\n"@ + numbered_list(c)
}

/// The user text of a curation call: the search's title and the numbered
/// list of candidates, the same for every provider.
pub fn build_curation_user_text(query: &StructuredQuery, candidates: &Vec<String>) -> (r: String)
    ensures
        r@ == curation_user_text(query.title@, views(candidates@)),
{
    let list = numbered_list_exec(candidates);
    let mut out = "Búsqueda: ".to_owned();
    push_all(&mut out, query.title.as_str());
    push_all(&mut out, "\n\nCandidatos:\n");
    push_all(&mut out, list.as_str());
    out
}

/// The user text of a curation by hint: the criterion line when a hint
/// that is not blank is given, then the numbered list of candidates.
pub open spec fn hint_curation_user_text(c: Seq<Seq<char>>, hint: Option<Seq<char>>) -> Seq<char> {
    match hint {
        Some(h) if trim(h).len() > 0 => "Criterio: "@ + h + "\n\nCandidatos:\n"@ + numbered_list(c),
        _ => "Candidatos:\n"@ + numbered_list(c),
    }
}

/// The user text of a curation by hint, the same for every provider.
pub fn build_hint_curation_user_text(candidates: &Vec<String>, hint: Option<&str>) -> (r: String)
    ensures
        r@ == hint_curation_user_text(views(candidates@), match hint {
            Some(h) => Some(h@),
            None => None,
        }),
{
    let list = numbered_list_exec(candidates);
    let with_hint = match hint {
        Some(h) => {
            let v = chars_of(h);
            let (a, b) = trim_bounds(&v, 0, v.len());
            proof {
                assert(v@.subrange(a as int, b as int) == trim(h@));
            }
            a < b
        },
        None => false,
    };
    if with_hint {
        let mut out = "Criterio: ".to_owned();
        match hint {
            Some(h) => push_all(&mut out, h),
            None => {},
        }
        push_all(&mut out, "\n\nCandidatos:\n");
        push_all(&mut out, list.as_str());
        out
    } else {
        let mut out = "Candidatos:\n".to_owned();
        push_all(&mut out, list.as_str());
        out
    }
}

/// The text from the first `{` to the last `}` of a reply (providers may
/// wrap their JSON in a Markdown fence): a missing brace, or a last `}`
/// before the first `{`, is an error.
pub open spec fn json_object_text(raw: Seq<char>) -> Result<Seq<char>, Seq<char>> {
    let start = find_char(raw, '{', 0, raw.len() as int);
    match rfind_char(raw, '}', 0, raw.len() as int) {
        Some(end) => if start >= raw.len() {
            Err(no_json_object())
        } else if end >= start {
            Ok(raw.subrange(start, end + 1))
        } else {
            Err("delimitadores de JSON inválidos en la respuesta"@)
        },
        None => Err(no_json_object()),
    }
}

pub open spec fn no_json_object() -> Seq<char> {
    "la respuesta del proveedor no contiene un objeto JSON"@
}

/// Frames the JSON object of a provider's reply: the text from its first
/// `{` to its last `}`, which the caller then reads as the object it
/// expects.
pub fn json_object_candidate(raw: &str) -> (r: Result<String, String>)
    ensures
        match r {
            Ok(t) => json_object_text(raw@) == Ok::<Seq<char>, Seq<char>>(t@),
            Err(e) => json_object_text(raw@) == Err::<Seq<char>, Seq<char>>(e@),
        },
{
    let v = chars_of(raw);
    let start = find_char_exec(&v, '{', 0, v.len());
    proof {
        lemma_rfind_char(v@, '}', 0, v@.len() as int);
    }
    if start >= v.len() {
        let _ = rfind_char_exec(&v, '}', 0, v.len());
        return Err("la respuesta del proveedor no contiene un objeto JSON".to_owned());
    }
    match rfind_char_exec(&v, '}', 0, v.len()) {
        Some(end) => {
            if end >= start {
                Ok(string_of(&v, start, end + 1))
            } else {
                Err("delimitadores de JSON inválidos en la respuesta".to_owned())
            }
        },
        None => Err("la respuesta del proveedor no contiene un objeto JSON".to_owned()),
    }
}

} // verus!
