//! The context windows that providers have reported for their models. They take the place of the
//! fallback for providers that accept any model. Nothing is kept between runs.

use vstd::prelude::*;
use crate::text::same_text;

verus! {

/// The kinds of providers.
#[derive(Debug, Clone, Copy, PartialEq, Eq, Structural)]
pub enum ProviderKind {
    Anthropic,
    OpenAi,
    Ollama,
    LlamaCpp,
}

#[derive(Debug)]
struct Entry {
    provider: ProviderKind,
    model_id: String,
    window: u32,
}

/// The known context windows, by provider and model.
#[derive(Debug)]
pub struct ContextWindows {
    entries: Vec<Entry>,
}

spec fn entry_key(e: Entry) -> (ProviderKind, Seq<char>) {
    (e.provider, e.model_id@)
}

spec fn entries_map(entries: Seq<Entry>) -> Map<(ProviderKind, Seq<char>), u32>
    decreases entries.len(),
{
    if entries.len() == 0 {
        Map::empty()
    } else {
        entries_map(entries.drop_last()).insert(entry_key(entries.last()), entries.last().window)
    }
}

spec fn keys_differ(entries: Seq<Entry>) -> bool {
    forall|i: int, j: int|
        0 <= i < j < entries.len() ==> entry_key(#[trigger] entries[i]) != entry_key(
            #[trigger] entries[j],
        )
}

proof fn lemma_entries_map(entries: Seq<Entry>, key: (ProviderKind, Seq<char>))
    requires
        keys_differ(entries),
    ensures
        entries_map(entries).contains_key(key) <==> exists|i: int|
            0 <= i < entries.len() && entry_key(#[trigger] entries[i]) == key,
        forall|i: int|
            0 <= i < entries.len() && entry_key(#[trigger] entries[i]) == key ==> entries_map(
                entries,
            )[key] == entries[i].window,
    decreases entries.len(),
{
    if entries.len() > 0 {
        let rest = entries.drop_last();
        assert(keys_differ(rest)) by {
            assert forall|i: int, j: int| 0 <= i < j < rest.len() implies entry_key(
                #[trigger] rest[i],
            ) != entry_key(#[trigger] rest[j]) by {
                assert(rest[i] == entries[i] && rest[j] == entries[j]);
            }
        }
        lemma_entries_map(rest, key);
        if exists|i: int| 0 <= i < entries.len() && entry_key(#[trigger] entries[i]) == key {
            let i = choose|i: int| 0 <= i < entries.len() && entry_key(#[trigger] entries[i]) == key;
            if i < rest.len() {
                assert(entry_key(rest[i]) == key);
            }
        }
        if entries_map(rest).contains_key(key) {
            let i = choose|i: int| 0 <= i < rest.len() && entry_key(#[trigger] rest[i]) == key;
            assert(entry_key(entries[i]) == key);
        }
        if entry_key(entries.last()) == key {
            assert(entry_key(entries[entries.len() - 1]) == key);
        }
        assert forall|i: int|
            0 <= i < entries.len() && entry_key(#[trigger] entries[i]) == key implies entries_map(
            entries,
        )[key] == entries[i].window by {
            if i < rest.len() {
                assert(rest[i] == entries[i]);
                assert(entry_key(entries[i]) != entry_key(entries[entries.len() - 1]));
            }
        }
    }
}

impl View for ContextWindows {
    type V = Map<(ProviderKind, Seq<char>), u32>;

    closed spec fn view(&self) -> Map<(ProviderKind, Seq<char>), u32> {
        entries_map(self.entries@)
    }
}

impl ContextWindows {
    /// No provider and model has two entries.
    pub closed spec fn well_formed(&self) -> bool {
        keys_differ(self.entries@)
    }

    /// No known window.
    pub fn new() -> (windows: Self)
        ensures
            windows.well_formed(),
            windows@ == Map::<(ProviderKind, Seq<char>), u32>::empty(),
    {
        ContextWindows { entries: Vec::new() }
    }

    fn find(&self, provider: ProviderKind, model_id: &str) -> (place: Option<usize>)
        ensures
            match place {
                Some(i) => i < self.entries.len() && entry_key(self.entries@[i as int]) == (
                    provider,
                    model_id@,
                ),
                None => forall|k: int|
                    0 <= k < self.entries.len() ==> entry_key(#[trigger] self.entries@[k]) != (
                        provider,
                        model_id@,
                    ),
            },
    {
        let mut i: usize = 0;
        while i < self.entries.len()
            invariant
                i <= self.entries.len(),
                forall|k: int|
                    0 <= k < i ==> entry_key(#[trigger] self.entries@[k]) != (provider, model_id@),
            decreases self.entries.len() - i,
        {
            if self.entries[i].provider == provider && same_text(
                self.entries[i].model_id.as_str(),
                model_id,
            ) {
                return Some(i);
            }
            i += 1;
        }
        None
    }
}

/// The window that is known for a provider's model.
pub open spec fn known_window(
    windows: Map<(ProviderKind, Seq<char>), u32>,
    provider: ProviderKind,
    model_id: Seq<char>,
) -> Option<u32> {
    if windows.contains_key((provider, model_id)) {
        Some(windows[(provider, model_id)])
    } else {
        None
    }
}

/// What was remembered last for a provider's model is what is known of it, and nothing else
/// changes with it.
pub proof fn law_last_window_is_known(
    windows: Map<(ProviderKind, Seq<char>), u32>,
    provider: ProviderKind,
    model_id: Seq<char>,
    window: u32,
    other_provider: ProviderKind,
    other_model: Seq<char>,
)
    ensures
        known_window(windows.insert((provider, model_id), window), provider, model_id) == Some(
            window,
        ),
        (other_provider, other_model) != (provider, model_id) ==> known_window(
            windows.insert((provider, model_id), window),
            other_provider,
            other_model,
        ) == known_window(windows, other_provider, other_model),
        known_window(Map::empty(), provider, model_id) is None,
{
}

/// Remembers the context window of a provider's model, in the place of an earlier one.
pub fn set_context_window(
    windows: &mut ContextWindows,
    provider: ProviderKind,
    model_id: String,
    window: u32,
)
    requires
        old(windows).well_formed(),
    ensures
        final(windows).well_formed(),
        final(windows)@ == old(windows)@.insert((provider, model_id@), window),
{
    let ghost before = windows.entries@;
    let ghost key = (provider, model_id@);
    match windows.find(provider, model_id.as_str()) {
        Some(i) => {
            windows.entries.set(i, Entry { provider, model_id, window });
            proof {
                let after = windows.entries@;
                assert forall|a: int, b: int| 0 <= a < b < after.len() implies entry_key(
                    #[trigger] after[a],
                ) != entry_key(#[trigger] after[b]) by {
                    assert(entry_key(after[a]) == entry_key(before[a]));
                    assert(entry_key(after[b]) == entry_key(before[b]));
                }
                assert forall|k: (ProviderKind, Seq<char>)| #[trigger]
                    entries_map(after).contains_key(k) == entries_map(before).insert(
                    key,
                    window,
                ).contains_key(k) && (entries_map(after).contains_key(k) ==> entries_map(after)[k]
                    == entries_map(before).insert(key, window)[k]) by {
                    lemma_entries_map(after, k);
                    lemma_entries_map(before, k);
                    assert(entry_key(after[i as int]) == key);
                    if exists|j: int| 0 <= j < after.len() && entry_key(#[trigger] after[j]) == k {
                        let j = choose|j: int|
                            0 <= j < after.len() && entry_key(#[trigger] after[j]) == k;
                        assert(entry_key(before[j]) == k);
                    }
                    if exists|j: int| 0 <= j < before.len() && entry_key(#[trigger] before[j]) == k {
                        let j = choose|j: int|
                            0 <= j < before.len() && entry_key(#[trigger] before[j]) == k;
                        assert(entry_key(after[j]) == k);
                    }
                }
                assert(entries_map(after) =~= entries_map(before).insert(key, window));
            }
        },
        None => {
            windows.entries.push(Entry { provider, model_id, window });
            assert(windows.entries@.drop_last() =~= before);
        },
    }
}

/// The context window of a provider's model, where one is remembered.
pub fn get_context_window(
    windows: &ContextWindows,
    provider: ProviderKind,
    model_id: &str,
) -> (window: Option<u32>)
    requires
        windows.well_formed(),
    ensures
        window == known_window(windows@, provider, model_id@),
{
    proof {
        lemma_entries_map(windows.entries@, (provider, model_id@));
    }
    match windows.find(provider, model_id) {
        Some(i) => Some(windows.entries[i].window),
        None => None,
    }
}

/// A window that is remembered is found again under its provider and model, and what is found under
/// any other provider or model is what was found before.
pub proof fn law_remembered_window_is_found(
    windows: &mut ContextWindows,
    provider: ProviderKind,
    model_id: String,
    window: u32,
    before: &ContextWindows,
    after: &ContextWindows,
    other_provider: ProviderKind,
    other_model: &str,
    found_before: Option<u32>,
    found: Option<u32>,
)
    requires
        call_ensures(set_context_window, (windows, provider, model_id, window), ()),
        before@ == old(windows)@,
        after@ == final(windows)@,
        call_ensures(get_context_window, (before, other_provider, other_model), found_before),
        call_ensures(get_context_window, (after, other_provider, other_model), found),
    ensures
        other_provider == provider && other_model@ == model_id@ ==> found == Some(window),
        other_provider != provider || other_model@ != model_id@ ==> found == found_before,
{
    law_last_window_is_known(
        old(windows)@,
        provider,
        model_id@,
        window,
        other_provider,
        other_model@,
    );
}

} // verus!
