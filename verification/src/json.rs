//! Values read out of JSON texts.

use crate::text;
use serde_json::Value;
use vstd::prelude::*;
use vstd::string::*;

verus! {

/// The text that stands under a key in the JSON object that `json` spells.
pub uninterp spec fn text_under(json: Seq<char>, key: Seq<char>) -> Option<Seq<char>>;

/// `serde_json::from_str` and `Value::get`: the text that stands under a key. There is none where
/// `json` is not valid, is no object, or has something else under the key. Which texts are valid
/// and how they are read is not said here.
#[verifier::external_body]
fn get_text(json: &str, key: &str) -> (r: Option<String>)
    ensures
        text::opt_view(r) == text_under(json@, key@),
{
    let value: Value = match serde_json::from_str(json) {
        Ok(v) => v,
        Err(_) => return None,
    };
    match value.get(key) {
        Some(Value::String(s)) => Some(s.clone()),
        _ => None,
    }
}

/// The entries of the list that stands under a key in the JSON object that `json` spells: of each
/// one the text under `name` and the number under `count`.
pub uninterp spec fn entries_under(
    json: Seq<char>,
    key: Seq<char>,
    name: Seq<char>,
    count: Seq<char>,
) -> Option<Seq<(Option<Seq<char>>, Option<u64>)>>;

/// What entries with a name and a number hold.
pub open spec fn entry_views(v: Seq<(Option<String>, Option<u64>)>) -> Seq<
    (Option<Seq<char>>, Option<u64>),
> {
    v.map_values(|e: (Option<String>, Option<u64>)| (text::opt_view(e.0), e.1))
}

/// What a list of entries that may be missing holds.
pub open spec fn list_view(o: Option<Vec<(Option<String>, Option<u64>)>>) -> Option<
    Seq<(Option<Seq<char>>, Option<u64>)>,
> {
    match o {
        Some(v) => Some(entry_views(v@)),
        None => None,
    }
}

/// `serde_json::from_str`, `Value::get`, `Value::as_str` and `Value::as_u64`: the entries of the
/// list under a key, of each one the text under `name` and the number under `count`. There is none
/// where `json` is not valid, is no object, or has no list under the key. Which texts are valid and
/// how they are read is not said here.
#[verifier::external_body]
fn get_entries(json: &str, key: &str, name: &str, count: &str) -> (r: Option<
    Vec<(Option<String>, Option<u64>)>,
>)
    ensures
        list_view(r) == entries_under(json@, key@, name@, count@),
{
    let value: Value = match serde_json::from_str(json) {
        Ok(v) => v,
        Err(_) => return None,
    };
    let items = match value.get(key) {
        Some(Value::Array(a)) => a,
        _ => return None,
    };
    let text_of = |e: &Value| e.get(name).and_then(Value::as_str).map(String::from);
    let number_of = |e: &Value| e.get(count).and_then(Value::as_u64);
    Some(items.iter().map(|e| (text_of(e), number_of(e))).collect())
}

/// The text under a key without blanks around it; empty where there is none.
pub open spec fn argument(json: Seq<char>, key: Seq<char>) -> Seq<char> {
    match text_under(json, key) {
        Some(s) => text::trimmed(s),
        None => Seq::empty(),
    }
}

/// A text without blanks around it; empty where it is missing.
pub fn trimmed_or_empty(o: Option<String>) -> (r: String)
    ensures
        r@ == (match text::opt_view(o) {
            Some(s) => text::trimmed(s),
            None => Seq::empty(),
        }),
{
    match o {
        Some(s) => text::trim(s.as_str()),
        None => {
            let r = String::new();
            assert(r@ =~= Seq::empty());
            r
        },
    }
}

/// The text under a key without blanks around it; empty where there is none.
pub fn argument_of(json: &str, key: &str) -> (r: String)
    ensures
        r@ == argument(json@, key@),
{
    trimmed_or_empty(get_text(json, key))
}

// ---------------------------------------------------------------------------
// The models that a provider offers
// ---------------------------------------------------------------------------
/// Whether a model is shown: at the free access of one provider only the free ones are.
pub open spec fn is_shown(base_url: Seq<char>, api_key: Option<Seq<char>>, id: Seq<char>) -> bool {
    ||| !text::holds(base_url, "opencode.ai"@)
    ||| api_key != Some("public"@)
    ||| "-free"@.is_suffix_of(id)
    ||| id == "big-pickle"@
}

/// The models among the entries, with the provider before their names.
pub open spec fn shown_models(
    provider: Seq<char>,
    base_url: Seq<char>,
    api_key: Option<Seq<char>>,
    entries: Seq<(Option<Seq<char>>, Option<u64>)>,
) -> Seq<(Seq<char>, Option<u64>)>
    decreases entries.len(),
{
    if entries.len() == 0 {
        Seq::empty()
    } else {
        let before = shown_models(provider, base_url, api_key, entries.drop_last());
        match entries.last().0 {
            Some(id) if is_shown(base_url, api_key, id) => before.push(
                (provider + "/"@ + id, entries.last().1),
            ),
            _ => before,
        }
    }
}

/// What a list of models holds.
pub open spec fn model_views(v: Seq<(String, Option<u64>)>) -> Seq<(Seq<char>, Option<u64>)> {
    v.map_values(|e: (String, Option<u64>)| (e.0@, e.1))
}

/// The models among the entries, with the provider before their names.
pub fn shown_of(
    provider: &str,
    base_url: &str,
    api_key: Option<&str>,
    entries: &Vec<(Option<String>, Option<u64>)>,
) -> (r: Vec<(String, Option<u64>)>)
    ensures
        model_views(r@) == shown_models(
            provider@,
            base_url@,
            crate::config::opt_str(api_key),
            entry_views(entries@),
        ),
{
    let free_only = text::holds_text(base_url, "opencode.ai") && match api_key {
        Some(k) => text::same_text(k, "public"),
        None => false,
    };
    let ghost want = entry_views(entries@);
    let ghost key = crate::config::opt_str(api_key);
    let mut out: Vec<(String, Option<u64>)> = Vec::new();
    let mut i: usize = 0;
    assert(want.take(0) =~= Seq::empty());
    assert(model_views(out@) =~= Seq::empty());
    while i < entries.len()
        invariant
            i <= entries@.len(),
            want == entry_views(entries@),
            free_only == (text::holds(base_url@, "opencode.ai"@) && key == Some("public"@)),
            model_views(out@) == shown_models(provider@, base_url@, key, want.take(i as int)),
        decreases entries@.len() - i,
    {
        let ghost before = out@;
        assert(want.take(i + 1).drop_last() =~= want.take(i as int));
        assert(want.take(i + 1).last() == (
            text::opt_view(entries@[i as int].0),
            entries@[i as int].1,
        ));
        if let Some(id) = &entries[i].0 {
            if !free_only || text::finishes_with(id.as_str(), "-free") || text::same_text(
                id.as_str(),
                "big-pickle",
            ) {
                let e = (text::concat3(provider, "/", id.as_str()), entries[i].1);
                out.push(e);
                assert(model_views(out@) =~= model_views(before).push((e.0@, e.1)));
            }
        }
        i += 1;
    }
    assert(want.take(entries@.len() as int) =~= want);
    out
}

/// Where a provider lists its models.
pub open spec fn models_address(base_url: Seq<char>) -> Seq<char> {
    base_url + "/models"@
}

/// Where a provider lists its models. `base_url` is its address.
pub fn models_url(base_url: &str) -> (r: String)
    ensures
        r@ == models_address(base_url@),
{
    text::concat(base_url, "/models")
}

/// The key that the question for the models carries: an empty one is none.
pub open spec fn sent_key(api_key: Option<Seq<char>>) -> Option<Seq<char>> {
    match api_key {
        Some(k) if k.len() > 0 => Some(k),
        _ => None,
    }
}

/// The key that the question for the models carries.
pub fn usable_key(api_key: Option<&str>) -> (r: Option<&str>)
    ensures
        crate::config::opt_str(r) == sent_key(crate::config::opt_str(api_key)),
{
    match api_key {
        Some(k) => if k.is_empty() {
            None
        } else {
            Some(k)
        },
        None => None,
    }
}

/// The models that a provider offers, from its answer to the question for them; none where the
/// answer is no list.
pub fn offered_models(provider: &str, base_url: &str, api_key: Option<&str>, body: &str) -> (r: Vec<
    (String, Option<u64>),
>)
    ensures
        model_views(r@) == (match entries_under(body@, "data"@, "id"@, "demand"@) {
            Some(entries) => shown_models(
                provider@,
                base_url@,
                crate::config::opt_str(api_key),
                entries,
            ),
            None => Seq::empty(),
        }),
{
    match get_entries(body, "data", "id", "demand") {
        Some(entries) => shown_of(provider, base_url, api_key, &entries),
        None => {
            let r: Vec<(String, Option<u64>)> = Vec::new();
            assert(model_views(r@) =~= Seq::empty());
            r
        },
    }
}

// ---------------------------------------------------------------------------
// Laws
// ---------------------------------------------------------------------------
/// The list of models stands below the address of the provider, and a key is sent only where there
/// is one.
pub proof fn law_models_are_asked_for_with_the_key(base_url: Seq<char>, key: Seq<char>)
    ensures
        models_address(base_url) == base_url + "/models"@,
        key.len() > 0 ==> sent_key(Some(key)) == Some(key),
        key.len() == 0 ==> sent_key(Some(key)) is None,
        sent_key(None) is None,
{
}

/// Every model of a provider is shown, under the name of the provider and with its window; with the
/// public key of the one provider that has such a key only those that are free.
pub proof fn law_models_are_shown_under_their_provider(
    provider: Seq<char>,
    base_url: Seq<char>,
    api_key: Option<Seq<char>>,
    entries: Seq<(Option<Seq<char>>, Option<u64>)>,
    id: Seq<char>,
    window: Option<u64>,
)
    ensures
        ({
            let before = shown_models(provider, base_url, api_key, entries);
            let after = shown_models(
                provider,
                base_url,
                api_key,
                entries.push((Some(id), window)),
            );
            let free = "-free"@.is_suffix_of(id) || id == "big-pickle"@;
            let public = text::holds(base_url, "opencode.ai"@) && api_key == Some("public"@);
            &&& !public || free ==> after == before.push((provider + "/"@ + id, window))
            &&& public && !free ==> after == before
        }),
        shown_models(provider, base_url, api_key, entries.push((None, window))) == shown_models(
            provider,
            base_url,
            api_key,
            entries,
        ),
        shown_models(provider, base_url, api_key, Seq::empty()).len() == 0,
{
    assert(entries.push((Some(id), window)).drop_last() =~= entries);
    assert(entries.push((None, window)).drop_last() =~= entries);
}

} // verus!
