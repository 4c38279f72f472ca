//! Persisted configuration: provider credentials and generation
//! defaults.
//!
//! The store keeps one configuration value, read fully before use and
//! written back whole. Secrets never travel back to a caller: entries
//! are masked on read, and a save that re-confirms a masked entry keeps
//! the stored plaintext.

use vstd::prelude::*;
use crate::text::lex_lt;
use crate::types::NotetypeId;
use crate::types::ProviderKind;

verus! {

/// One provider's stored credential.
#[derive(Debug)]
pub struct ProviderApiKey {
    pub provider: ProviderKind,
    pub api_key: Option<String>,
    pub masked: bool,
}

/// The wire name an entry is keyed by.
pub open spec fn key_name(k: ProviderApiKey) -> Seq<char> {
    k.provider.spec_name()
}

/// The variant of a kind agrees with its name, as `from_str` builds it.
pub open spec fn normalized_kind(k: ProviderKind) -> bool {
    &&& k.spec_name() == "gemini"@ <==> k is Gemini
    &&& k.spec_name() == "openrouter"@ <==> k is OpenRouter
    &&& k.spec_name() == "perplexity"@ <==> k is Perplexity
    &&& k.spec_name() == "openai"@ <==> k is OpenAi
}

/// Copy an optional string by value.
fn clone_opt_string(o: &Option<String>) -> (r: Option<String>)
    ensures
        r == *o,
{
    match o {
        Some(s) => Some(s.clone()),
        None => None,
    }
}

/// Copy a provider kind by value.
fn clone_kind(k: &ProviderKind) -> (r: ProviderKind)
    ensures
        r == *k,
{
    match k {
        ProviderKind::Gemini => ProviderKind::Gemini,
        ProviderKind::OpenRouter => ProviderKind::OpenRouter,
        ProviderKind::Perplexity => ProviderKind::Perplexity,
        ProviderKind::OpenAi => ProviderKind::OpenAi,
        ProviderKind::Custom(s) => ProviderKind::Custom(s.clone()),
    }
}

impl Clone for ProviderApiKey {
    fn clone(&self) -> (r: Self)
        ensures
            r == *self,
    {
        ProviderApiKey {
            provider: clone_kind(&self.provider),
            api_key: clone_opt_string(&self.api_key),
            masked: self.masked,
        }
    }
}

impl ProviderApiKey {
    /// A fresh entry: carrying a key means being masked from the start.
    pub fn new(provider: ProviderKind, api_key: Option<String>) -> (r: Self)
        ensures
            r.provider == provider,
            r.masked == (api_key is Some),
            r.api_key == api_key,
    {
        let masked = api_key.is_some();
        Self { provider, masked, api_key }
    }

    /// The entry as a caller may see it: the plaintext is only emitted
    /// while the entry is unmasked, and any entry that carries a key
    /// reads as masked.
    pub fn public_entry(&self) -> (r: ProviderApiKey)
        ensures
            r.provider == self.provider,
            r.api_key == (if self.masked {
                None::<String>
            } else {
                self.api_key
            }),
            r.masked == (self.masked || self.api_key is Some),
    {
        ProviderApiKey {
            provider: clone_kind(&self.provider),
            api_key: if self.masked {
                None
            } else {
                clone_opt_string(&self.api_key)
            },
            masked: self.masked || self.api_key.is_some(),
        }
    }
}

/// The last entry with a given name, as a keyed map built by successive
/// inserts would keep it.
pub open spec fn spec_last_with_name(keys: Seq<ProviderApiKey>, name: Seq<char>) -> Option<
    ProviderApiKey,
>
    decreases keys.len(),
{
    if keys.len() == 0 {
        None
    } else if key_name(keys.last()) == name {
        Some(keys.last())
    } else {
        spec_last_with_name(keys.drop_last(), name)
    }
}

/// The first entry with a given name.
pub open spec fn spec_lookup(keys: Seq<ProviderApiKey>, name: Seq<char>) -> Option<ProviderApiKey>
    decreases keys.len(),
{
    if keys.len() == 0 {
        None
    } else if key_name(keys[0]) == name {
        Some(keys[0])
    } else {
        spec_lookup(keys.drop_first(), name)
    }
}

pub open spec fn spec_has_name(keys: Seq<ProviderApiKey>, name: Seq<char>) -> bool {
    exists|i: int| 0 <= i < keys.len() && key_name(keys[i]) == name
}

/// Entries strictly sorted by name; names are then unique.
pub open spec fn sorted_unique(keys: Seq<ProviderApiKey>) -> bool {
    forall|i: int, j: int|
        0 <= i < j < keys.len() ==> lex_lt(key_name(#[trigger] keys[i]), key_name(
            #[trigger] keys[j],
        ))
}

proof fn lemma_lookup_has_name(keys: Seq<ProviderApiKey>, name: Seq<char>)
    ensures
        spec_lookup(keys, name) is Some <==> spec_has_name(keys, name),
        spec_lookup(keys, name) matches Some(e) ==> key_name(e) == name && keys.contains(e),
    decreases keys.len(),
{
    if keys.len() > 0 {
        lemma_lookup_has_name(keys.drop_first(), name);
        if key_name(keys[0]) == name {
        } else {
            if spec_has_name(keys.drop_first(), name) {
                let i = choose|i: int|
                    0 <= i < keys.drop_first().len() && key_name(keys.drop_first()[i]) == name;
                assert(key_name(keys[i + 1]) == name);
            }
            if spec_has_name(keys, name) {
                let i = choose|i: int| 0 <= i < keys.len() && key_name(keys[i]) == name;
                assert(i > 0);
                assert(key_name(keys.drop_first()[i - 1]) == name);
            }
            match spec_lookup(keys.drop_first(), name) {
                Some(e) => {
                    assert(keys.drop_first().contains(e));
                    let i = choose|i: int|
                        0 <= i < keys.drop_first().len() && keys.drop_first()[i] == e;
                    assert(keys[i + 1] == e);
                },
                None => {},
            }
        }
    }
}

proof fn lemma_last_has_name(keys: Seq<ProviderApiKey>, name: Seq<char>)
    ensures
        spec_last_with_name(keys, name) is Some <==> spec_has_name(keys, name),
        spec_last_with_name(keys, name) matches Some(e) ==> key_name(e) == name,
    decreases keys.len(),
{
    if keys.len() > 0 {
        lemma_last_has_name(keys.drop_last(), name);
        if key_name(keys.last()) == name {
            assert(key_name(keys[keys.len() - 1]) == name);
        } else {
            if spec_has_name(keys.drop_last(), name) {
                let i = choose|i: int|
                    0 <= i < keys.drop_last().len() && key_name(keys.drop_last()[i]) == name;
                assert(key_name(keys[i]) == name);
            }
            if spec_has_name(keys, name) {
                let i = choose|i: int| 0 <= i < keys.len() && key_name(keys[i]) == name;
                assert(i < keys.len() - 1);
                assert(key_name(keys.drop_last()[i]) == name);
            }
        }
    }
}

/// In a list with unique names, the first entry carrying the name of
/// position `i` is position `i` itself.
proof fn lemma_lookup_self(keys: Seq<ProviderApiKey>, i: int)
    requires
        0 <= i < keys.len(),
        forall|a: int, b: int|
            0 <= a < b < keys.len() ==> key_name(#[trigger] keys[a]) != key_name(
                #[trigger] keys[b],
            ),
    ensures
        spec_lookup(keys, key_name(keys[i])) == Some(keys[i]),
    decreases keys.len(),
{
    if i == 0 {
    } else {
        assert(key_name(keys[0]) != key_name(keys[i]));
        assert(forall|a: int, b: int|
            0 <= a < b < keys.drop_first().len() ==> key_name(#[trigger] keys.drop_first()[a])
                != key_name(#[trigger] keys.drop_first()[b])) by {
            assert(forall|a: int|
                0 <= a < keys.drop_first().len() ==> #[trigger] keys.drop_first()[a] == keys[a
                    + 1]);
        }
        lemma_lookup_self(keys.drop_first(), i - 1);
        assert(keys.drop_first()[i - 1] == keys[i]);
    }
}

/// Sorted names are unique.
proof fn lemma_sorted_names_unique(keys: Seq<ProviderApiKey>)
    requires
        sorted_unique(keys),
    ensures
        forall|a: int, b: int|
            0 <= a < b < keys.len() ==> key_name(#[trigger] keys[a]) != key_name(
                #[trigger] keys[b],
            ),
{
    assert forall|a: int, b: int|
        0 <= a < b < keys.len() implies key_name(#[trigger] keys[a]) != key_name(
        #[trigger] keys[b],
    ) by {
        crate::text::lemma_lex_strict_order(key_name(keys[a]), key_name(keys[b]), key_name(
            keys[b],
        ));
    }
}

/// Facts about inserting into a sorted list at the right position.
proof fn lemma_sorted_insert_props(
    old_keys: Seq<ProviderApiKey>,
    new_keys: Seq<ProviderApiKey>,
    i: int,
    entry: ProviderApiKey,
)
    requires
        sorted_unique(old_keys),
        0 <= i <= old_keys.len(),
        new_keys.len() == old_keys.len() + 1,
        forall|k: int| 0 <= k < i ==> #[trigger] new_keys[k] == old_keys[k],
        new_keys[i] == entry,
        forall|k: int| i < k < new_keys.len() ==> #[trigger] new_keys[k] == old_keys[k - 1],
        forall|j: int| 0 <= j < i ==> lex_lt(key_name(#[trigger] old_keys[j]), key_name(entry)),
        i < old_keys.len() ==> lex_lt(key_name(entry), key_name(old_keys[i])),
        !spec_has_name(old_keys, key_name(entry)),
    ensures
        sorted_unique(new_keys),
        spec_lookup(new_keys, key_name(entry)) == Some(entry),
        forall|n: Seq<char>|
            n != key_name(entry) ==> #[trigger] spec_lookup(new_keys, n) == spec_lookup(
                old_keys,
                n,
            ),
        forall|n: Seq<char>|
            #[trigger] spec_has_name(new_keys, n) <==> spec_has_name(old_keys, n) || n
                == key_name(entry),
{
    assert forall|a: int, b: int| 0 <= a < b < new_keys.len() implies lex_lt(
        key_name(#[trigger] new_keys[a]),
        key_name(#[trigger] new_keys[b]),
    ) by {
        if a < i && b > i {
            if i < old_keys.len() {
                crate::text::lemma_lex_strict_order(
                    key_name(old_keys[a]),
                    key_name(entry),
                    key_name(old_keys[b - 1]),
                );
                if b - 1 > i {
                    crate::text::lemma_lex_strict_order(
                        key_name(entry),
                        key_name(old_keys[i]),
                        key_name(old_keys[b - 1]),
                    );
                    crate::text::lemma_lex_strict_order(
                        key_name(old_keys[a]),
                        key_name(entry),
                        key_name(old_keys[b - 1]),
                    );
                }
            }
        } else if a == i && b > i {
            if b - 1 > i {
                crate::text::lemma_lex_strict_order(
                    key_name(entry),
                    key_name(old_keys[i]),
                    key_name(old_keys[b - 1]),
                );
            }
        }
    }
    lemma_sorted_names_unique(new_keys);
    lemma_lookup_self(new_keys, i);
    assert forall|n: Seq<char>| n != key_name(entry) implies #[trigger] spec_lookup(new_keys, n)
        == spec_lookup(old_keys, n) by {
        lemma_lookup_has_name(old_keys, n);
        lemma_lookup_has_name(new_keys, n);
        if spec_has_name(old_keys, n) {
            let j = choose|j: int| 0 <= j < old_keys.len() && key_name(old_keys[j]) == n;
            lemma_sorted_names_unique(old_keys);
            lemma_lookup_self(old_keys, j);
            if j < i {
                lemma_lookup_self(new_keys, j);
            } else {
                assert(new_keys[j + 1] == old_keys[j]);
                lemma_lookup_self(new_keys, j + 1);
            }
        } else {
            if spec_has_name(new_keys, n) {
                let k = choose|k: int| 0 <= k < new_keys.len() && key_name(new_keys[k]) == n;
                if k < i {
                    assert(key_name(old_keys[k]) == n);
                } else if k > i {
                    assert(key_name(old_keys[k - 1]) == n);
                }
                assert(false);
            }
        }
    }
    assert forall|n: Seq<char>| #[trigger]
        spec_has_name(new_keys, n) <==> spec_has_name(old_keys, n) || n == key_name(
        entry,
    ) by {
        if spec_has_name(old_keys, n) {
            let j = choose|j: int| 0 <= j < old_keys.len() && key_name(old_keys[j]) == n;
            if j < i {
                assert(key_name(new_keys[j]) == n);
            } else {
                assert(key_name(new_keys[j + 1]) == n);
            }
        }
        if n == key_name(entry) {
            assert(key_name(new_keys[i]) == n);
        }
        if spec_has_name(new_keys, n) && n != key_name(entry) {
            let k = choose|k: int| 0 <= k < new_keys.len() && key_name(new_keys[k]) == n;
            if k < i {
                assert(key_name(old_keys[k]) == n);
            } else if k > i {
                assert(key_name(old_keys[k - 1]) == n);
            } else {
                assert(false);
            }
        }
    }
}

/// Facts about replacing the entry that already carries a name.
proof fn lemma_sorted_replace_props(
    old_keys: Seq<ProviderApiKey>,
    new_keys: Seq<ProviderApiKey>,
    i: int,
    entry: ProviderApiKey,
)
    requires
        sorted_unique(old_keys),
        0 <= i < old_keys.len(),
        key_name(old_keys[i]) == key_name(entry),
        new_keys.len() == old_keys.len(),
        forall|k: int|
            0 <= k < new_keys.len() && k != i ==> #[trigger] new_keys[k] == old_keys[k],
        new_keys[i] == entry,
    ensures
        sorted_unique(new_keys),
        spec_lookup(new_keys, key_name(entry)) == Some(entry),
        forall|n: Seq<char>|
            n != key_name(entry) ==> #[trigger] spec_lookup(new_keys, n) == spec_lookup(
                old_keys,
                n,
            ),
        forall|n: Seq<char>|
            #[trigger] spec_has_name(new_keys, n) <==> spec_has_name(old_keys, n) || n
                == key_name(entry),
{
    assert(sorted_unique(new_keys));
    lemma_sorted_names_unique(new_keys);
    lemma_sorted_names_unique(old_keys);
    lemma_lookup_self(new_keys, i);
    assert forall|n: Seq<char>| n != key_name(entry) implies #[trigger] spec_lookup(new_keys, n)
        == spec_lookup(old_keys, n) by {
        lemma_lookup_has_name(old_keys, n);
        lemma_lookup_has_name(new_keys, n);
        if spec_has_name(old_keys, n) {
            let j = choose|j: int| 0 <= j < old_keys.len() && key_name(old_keys[j]) == n;
            assert(j != i);
            lemma_lookup_self(old_keys, j);
            lemma_lookup_self(new_keys, j);
        } else {
            if spec_has_name(new_keys, n) {
                let k = choose|k: int| 0 <= k < new_keys.len() && key_name(new_keys[k]) == n;
                assert(k != i);
                assert(key_name(old_keys[k]) == n);
                assert(false);
            }
        }
    }
    assert forall|n: Seq<char>| #[trigger]
        spec_has_name(new_keys, n) <==> spec_has_name(old_keys, n) || n == key_name(
        entry,
    ) by {
        if spec_has_name(old_keys, n) {
            let j = choose|j: int| 0 <= j < old_keys.len() && key_name(old_keys[j]) == n;
            if j == i {
                assert(key_name(new_keys[i]) == n);
            } else {
                assert(key_name(new_keys[j]) == n);
            }
        }
        if spec_has_name(new_keys, n) {
            let k = choose|k: int| 0 <= k < new_keys.len() && key_name(new_keys[k]) == n;
            if k != i {
                assert(key_name(old_keys[k]) == n);
            }
        }
    }
}

/// Where a name belongs in a sorted list, and whether it is already
/// there.
fn position_for(keys: &Vec<ProviderApiKey>, name: &Vec<char>) -> (r: (usize, bool))
    requires
        sorted_unique(keys@),
    ensures
        r.0 <= keys@.len(),
        forall|j: int| 0 <= j < r.0 ==> lex_lt(key_name(#[trigger] keys@[j]), name@),
        r.1 ==> r.0 < keys@.len() && key_name(keys@[r.0 as int]) == name@,
        (!r.1 && r.0 < keys@.len()) ==> lex_lt(name@, key_name(keys@[r.0 as int])),
{
    let n = keys.len();
    let mut i: usize = 0;
    while i < n
        invariant
            0 <= i <= n == keys@.len(),
            sorted_unique(keys@),
            forall|j: int| 0 <= j < i ==> lex_lt(key_name(#[trigger] keys@[j]), name@),
        decreases n - i,
    {
        let kc = crate::text::chars_of(keys[i].provider.as_str());
        if crate::text::lex_lt_chars(&kc, name) {
            i = i + 1;
        } else {
            if crate::text::chars_eq(&kc, name) {
                return (i, true);
            }
            proof {
                crate::text::lemma_lex_strict_order(
                    name@,
                    key_name(keys@[i as int]),
                    key_name(keys@[i as int]),
                );
            }
            return (i, false);
        }
    }
    (n, false)
}

/// Insert or replace by name, keeping the list sorted.
fn upsert_sorted(keys: &mut Vec<ProviderApiKey>, entry: ProviderApiKey)
    requires
        sorted_unique(old(keys)@),
    ensures
        sorted_unique(final(keys)@),
        spec_lookup(final(keys)@, key_name(entry)) == Some(entry),
        forall|n: Seq<char>|
            n != key_name(entry) ==> #[trigger] spec_lookup(final(keys)@, n) == spec_lookup(
                old(keys)@,
                n,
            ),
        forall|n: Seq<char>|
            #[trigger] spec_has_name(final(keys)@, n) <==> spec_has_name(old(keys)@, n) || n
                == key_name(entry),
{
    let nc = crate::text::chars_of(entry.provider.as_str());
    let (i, found) = position_for(keys, &nc);
    let ghost before = keys@;
    if found {
        let _replaced = keys.remove(i);
        keys.insert(i, entry);
        proof {
            assert(keys@ =~= before.update(i as int, entry)) by {
                before.remove_ensures(i as int);
                before.remove(i as int).insert_ensures(i as int, entry);
                assert forall|k: int| 0 <= k < keys@.len() implies keys@[k] == before.update(
                    i as int,
                    entry,
                )[k] by {}
            }
            lemma_sorted_replace_props(before, keys@, i as int, entry);
        }
    } else {
        proof {
            if spec_has_name(before, key_name(entry)) {
                let j = choose|j: int| 0 <= j < before.len() && key_name(before[j]) == key_name(
                    entry,
                );
                if j < i {
                    crate::text::lemma_lex_strict_order(
                        key_name(before[j]),
                        key_name(before[j]),
                        key_name(before[j]),
                    );
                } else if j > i {
                    assert(i < before.len());
                    crate::text::lemma_lex_strict_order(
                        key_name(entry),
                        key_name(before[i as int]),
                        key_name(before[j]),
                    );
                    crate::text::lemma_lex_strict_order(
                        key_name(entry),
                        key_name(entry),
                        key_name(entry),
                    );
                } else {
                    assert(i < before.len());
                    crate::text::lemma_lex_strict_order(
                        key_name(entry),
                        key_name(before[i as int]),
                        key_name(before[i as int]),
                    );
                }
                assert(false);
            }
        }
        keys.insert(i, entry);
        proof {
            before.insert_ensures(i as int, entry);
            lemma_sorted_insert_props(before, keys@, i as int, entry);
        }
    }
}

/// Entry `k` carries the same observable state as `e`, under a
/// normalized kind.
pub open spec fn entry_like(k: ProviderApiKey, e: ProviderApiKey) -> bool {
    &&& key_name(k) == key_name(e)
    &&& k.api_key == e.api_key
    &&& k.masked == e.masked
    &&& normalized_kind(k.provider)
}

/// The names that always get an entry.
pub open spec fn is_default_name(n: Seq<char>) -> bool {
    n == "gemini"@ || n == "openrouter"@ || n == "perplexity"@
}

/// An empty, unmasked placeholder.
pub open spec fn is_placeholder(k: ProviderApiKey) -> bool {
    k.api_key is None && !k.masked && normalized_kind(k.provider)
}

/// What `ensure_defaults` guarantees: the new list is sorted by name
/// with unique names; every entry either restates the last old entry
/// with its name or is a placeholder for a default provider that had no
/// entry; every old name survives; every default name is present.
pub open spec fn defaults_ensured(
    old_keys: Seq<ProviderApiKey>,
    new_keys: Seq<ProviderApiKey>,
) -> bool {
    &&& sorted_unique(new_keys)
    &&& forall|i: int|
        0 <= i < new_keys.len() ==> (match spec_last_with_name(
            old_keys,
            key_name(#[trigger] new_keys[i]),
        ) {
            Some(e) => entry_like(new_keys[i], e),
            None => is_default_name(key_name(new_keys[i])) && is_placeholder(new_keys[i]),
        })
    &&& forall|j: int|
        0 <= j < old_keys.len() ==> spec_has_name(new_keys, key_name(#[trigger] old_keys[j]))
    &&& spec_has_name(new_keys, "gemini"@)
    &&& spec_has_name(new_keys, "openrouter"@)
    &&& spec_has_name(new_keys, "perplexity"@)
}

/// Insert a placeholder for `kind` if its name is absent.
fn add_default(keys: &mut Vec<ProviderApiKey>, kind: ProviderKind)
    requires
        sorted_unique(old(keys)@),
    ensures
        sorted_unique(final(keys)@),
        forall|n: Seq<char>|
            n != kind.spec_name() ==> #[trigger] spec_lookup(final(keys)@, n) == spec_lookup(
                old(keys)@,
                n,
            ),
        spec_has_name(old(keys)@, kind.spec_name()) ==> final(keys)@ == old(keys)@,
        !spec_has_name(old(keys)@, kind.spec_name()) ==> (spec_lookup(
            final(keys)@,
            kind.spec_name(),
        ) matches Some(e) && e.provider == kind && e.api_key is None && !e.masked),
        forall|n: Seq<char>|
            #[trigger] spec_has_name(final(keys)@, n) <==> spec_has_name(old(keys)@, n) || n
                == kind.spec_name(),
{
    let nc = crate::text::chars_of(kind.as_str());
    let (i, found) = position_for(keys, &nc);
    if found {
        proof {
            assert(spec_has_name(keys@, kind.spec_name()));
        }
        return ;
    }
    proof {
        if spec_has_name(keys@, kind.spec_name()) {
            let j = choose|j: int|
                0 <= j < keys@.len() && key_name(keys@[j]) == kind.spec_name();
            if j < i {
                crate::text::lemma_lex_strict_order(
                    key_name(keys@[j]),
                    key_name(keys@[j]),
                    key_name(keys@[j]),
                );
            } else if j > i {
                crate::text::lemma_lex_strict_order(
                    kind.spec_name(),
                    key_name(keys@[i as int]),
                    key_name(keys@[j]),
                );
                crate::text::lemma_lex_strict_order(
                    kind.spec_name(),
                    kind.spec_name(),
                    kind.spec_name(),
                );
            } else {
                crate::text::lemma_lex_strict_order(
                    kind.spec_name(),
                    key_name(keys@[i as int]),
                    key_name(keys@[i as int]),
                );
            }
            assert(false);
        }
    }
    let entry = ProviderApiKey { provider: kind, api_key: None, masked: false };
    upsert_sorted(keys, entry);
}

/// The persisted configuration.
#[derive(Debug)]
pub struct AiGenerationConfig {
    pub selected_provider: Option<ProviderKind>,
    pub default_note_type_id: Option<NotetypeId>,
    pub api_keys: Vec<ProviderApiKey>,
    pub preferred_model: Option<String>,
    pub default_max_cards: Option<u32>,
}

/// Copy a key list by value.
fn copy_keys(v: &Vec<ProviderApiKey>) -> (r: Vec<ProviderApiKey>)
    ensures
        r@ == v@,
{
    let n = v.len();
    let mut r: Vec<ProviderApiKey> = Vec::new();
    let mut i: usize = 0;
    while i < n
        invariant
            0 <= i <= n == v@.len(),
            r@ == v@.take(i as int),
        decreases n - i,
    {
        r.push(v[i].clone());
        proof {
            assert(r@ =~= v@.take(i + 1));
        }
        i = i + 1;
    }
    proof {
        assert(v@.take(n as int) =~= v@);
    }
    r
}

fn clone_opt_kind(o: &Option<ProviderKind>) -> (r: Option<ProviderKind>)
    ensures
        r == *o,
{
    match o {
        Some(k) => Some(clone_kind(k)),
        None => None,
    }
}

impl Clone for AiGenerationConfig {
    fn clone(&self) -> (r: Self)
        ensures
            r.selected_provider == self.selected_provider,
            r.default_note_type_id == self.default_note_type_id,
            r.api_keys@ == self.api_keys@,
            r.preferred_model == self.preferred_model,
            r.default_max_cards == self.default_max_cards,
    {
        AiGenerationConfig {
            selected_provider: clone_opt_kind(&self.selected_provider),
            default_note_type_id: self.default_note_type_id,
            api_keys: copy_keys(&self.api_keys),
            preferred_model: clone_opt_string(&self.preferred_model),
            default_max_cards: self.default_max_cards,
        }
    }
}

impl Default for AiGenerationConfig {
    fn default() -> (r: Self)
        ensures
            r.selected_provider is None,
            r.default_note_type_id is None,
            r.api_keys@.len() == 0,
            r.preferred_model is None,
            r.default_max_cards is None,
    {
        AiGenerationConfig {
            selected_provider: None,
            default_note_type_id: None,
            api_keys: Vec::new(),
            preferred_model: None,
            default_max_cards: None,
        }
    }
}

impl AiGenerationConfig {
    /// The stored key for a provider: the first entry with its name.
    pub fn api_key_for(&self, provider: &ProviderKind) -> (r: Option<String>)
        ensures
            match spec_lookup(self.api_keys@, provider.spec_name()) {
                Some(e) => r == e.api_key,
                None => r is None,
            },
    {
        let n = self.api_keys.len();
        let mut i: usize = 0;
        proof {
            assert(self.api_keys@.skip(0) =~= self.api_keys@);
        }
        while i < n
            invariant
                0 <= i <= n == self.api_keys@.len(),
                spec_lookup(self.api_keys@, provider.spec_name()) == spec_lookup(
                    self.api_keys@.skip(i as int),
                    provider.spec_name(),
                ),
            decreases n - i,
        {
            proof {
                assert(self.api_keys@.skip(i as int)[0] == self.api_keys@[i as int]);
                assert(self.api_keys@.skip(i as int).drop_first() =~= self.api_keys@.skip(
                    i + 1,
                ));
            }
            if self.api_keys[i].provider.kind_eq(provider) {
                return clone_opt_string(&self.api_keys[i].api_key);
            }
            i = i + 1;
        }
        proof {
            assert(self.api_keys@.skip(n as int) =~= Seq::<ProviderApiKey>::empty());
        }
        None
    }

    /// The provider generation runs against: the selected one, else
    /// Gemini.
    pub fn provider_selected(&self) -> (r: ProviderKind)
        ensures
            r == (match self.selected_provider {
                Some(k) => k,
                None => ProviderKind::Gemini,
            }),
    {
        match &self.selected_provider {
            Some(k) => clone_kind(k),
            None => ProviderKind::Gemini,
        }
    }

    /// Re-key every entry by its wire name (last entry with a name
    /// wins), normalize the kinds, insert placeholders for providers
    /// without an entry, and keep the list sorted by name.
    pub fn ensure_defaults(&mut self)
        ensures
            final(self).selected_provider == old(self).selected_provider,
            final(self).default_note_type_id == old(self).default_note_type_id,
            final(self).preferred_model == old(self).preferred_model,
            final(self).default_max_cards == old(self).default_max_cards,
            defaults_ensured(old(self).api_keys@, final(self).api_keys@),
    {
        let ghost old_keys = self.api_keys@;
        let n = self.api_keys.len();
        let mut result: Vec<ProviderApiKey> = Vec::new();
        let mut p: usize = 0;
        while p < n
            invariant
                0 <= p <= n == old_keys.len(),
                self.api_keys@ == old_keys,
                sorted_unique(result@),
                forall|i: int|
                    0 <= i < result@.len() ==> (match spec_last_with_name(
                        old_keys.take(p as int),
                        key_name(#[trigger] result@[i]),
                    ) {
                        Some(e) => entry_like(result@[i], e),
                        None => false,
                    }),
                forall|j: int|
                    0 <= j < p ==> spec_has_name(result@, key_name(#[trigger] old_keys[j])),
            decreases n - p,
        {
            let src = &self.api_keys[p];
            let entry = ProviderApiKey {
                provider: ProviderKind::from_str(src.provider.as_str()),
                api_key: clone_opt_string(&src.api_key),
                masked: src.masked,
            };
            let ghost pre = result@;
            proof {
                assert(key_name(entry) == key_name(old_keys[p as int]));
            }
            upsert_sorted(&mut result, entry);
            proof {
                assert(old_keys.take(p + 1).drop_last() =~= old_keys.take(p as int));
                assert(old_keys.take(p + 1).last() == old_keys[p as int]);
                lemma_sorted_names_unique(result@);
                assert forall|i: int| 0 <= i < result@.len() implies (match spec_last_with_name(
                    old_keys.take(p + 1),
                    key_name(#[trigger] result@[i]),
                ) {
                    Some(e) => entry_like(result@[i], e),
                    None => false,
                }) by {
                    let k = result@[i];
                    lemma_lookup_self(result@, i);
                    if key_name(k) == key_name(entry) {
                        assert(spec_lookup(result@, key_name(entry)) == Some(entry));
                        assert(k == entry);
                    } else {
                        assert(spec_lookup(result@, key_name(k)) == spec_lookup(
                            pre,
                            key_name(k),
                        ));
                        lemma_lookup_has_name(pre, key_name(k));
                        let j = choose|j: int| 0 <= j < pre.len() && pre[j] == k;
                    }
                }
                assert forall|j: int| 0 <= j < p + 1 implies spec_has_name(
                    result@,
                    key_name(#[trigger] old_keys[j]),
                ) by {
                    if j < p {
                        assert(spec_has_name(pre, key_name(old_keys[j])));
                    } else {
                        assert(spec_has_name(result@, key_name(entry)));
                    }
                }
            }
            p = p + 1;
        }
        proof {
            assert(old_keys.take(n as int) =~= old_keys);
        }
        let ghost base = result@;
        add_default(&mut result, ProviderKind::Gemini);
        let ghost base1 = result@;
        add_default(&mut result, ProviderKind::OpenRouter);
        let ghost base2 = result@;
        add_default(&mut result, ProviderKind::Perplexity);
        proof {
            reveal_strlit("gemini");
            reveal_strlit("openrouter");
            reveal_strlit("perplexity");
            reveal_strlit("openai");
            assert("gemini"@ != "openrouter"@) by {
                assert("gemini"@.len() == 6 && "openrouter"@.len() == 10);
            }
            assert("gemini"@ != "perplexity"@) by {
                assert("gemini"@.len() == 6 && "perplexity"@.len() == 10);
            }
            assert("openrouter"@ != "perplexity"@) by {
                assert("openrouter"@[0] == 'o' && "perplexity"@[0] == 'p');
            }
            assert("gemini"@ != "openai"@) by {
                assert("gemini"@[0] == 'g' && "openai"@[0] == 'o');
            }
            assert("openrouter"@ != "openai"@) by {
                assert("openrouter"@.len() == 10 && "openai"@.len() == 6);
            }
            assert("perplexity"@ != "openai"@) by {
                assert("perplexity"@.len() == 10 && "openai"@.len() == 6);
            }
            lemma_sorted_names_unique(result@);
            assert forall|i: int| 0 <= i < result@.len() implies (match spec_last_with_name(
                old_keys,
                key_name(#[trigger] result@[i]),
            ) {
                Some(e) => entry_like(result@[i], e),
                None => is_default_name(key_name(result@[i])) && is_placeholder(result@[i]),
            }) by {
                let k = result@[i];
                let nm = key_name(k);
                lemma_lookup_self(result@, i);
                lemma_last_has_name(old_keys, nm);
                lemma_lookup_has_name(base, nm);
                if nm != "gemini"@ && nm != "openrouter"@ && nm != "perplexity"@ {
                    assert(spec_lookup(result@, nm) == spec_lookup(base2, nm));
                    assert(spec_lookup(base2, nm) == spec_lookup(base1, nm));
                    assert(spec_lookup(base1, nm) == spec_lookup(base, nm));
                    assert(spec_lookup(base, nm) == Some(k));
                    assert(base.contains(k));
                    let j = choose|j: int| 0 <= j < base.len() && base[j] == k;
                    assert(base[j] == k);
                    assert(match spec_last_with_name(old_keys.take(n as int), key_name(base[j])) {
                        Some(e) => entry_like(base[j], e),
                        None => false,
                    });
                } else {
                    let prior_has = spec_has_name(base, nm);
                    if prior_has {
                        if nm == "gemini"@ {
                            assert(base1 == base);
                            assert(spec_lookup(result@, nm) == spec_lookup(base2, nm));
                            assert(spec_lookup(base2, nm) == spec_lookup(base1, nm));
                        } else if nm == "openrouter"@ {
                            assert(spec_lookup(base1, nm) == spec_lookup(base, nm));
                            assert(spec_has_name(base1, nm));
                            assert(base2 == base1);
                            assert(spec_lookup(result@, nm) == spec_lookup(base2, nm));
                        } else {
                            assert(spec_lookup(base2, nm) == spec_lookup(base1, nm));
                            assert(spec_lookup(base1, nm) == spec_lookup(base, nm));
                            assert(spec_has_name(base2, nm));
                            assert(result@ == base2);
                        }
                        assert(spec_lookup(base, nm) == Some(k));
                        assert(base.contains(k));
                        let j = choose|j: int| 0 <= j < base.len() && base[j] == k;
                        assert(base[j] == k);
                        assert(match spec_last_with_name(
                            old_keys.take(n as int),
                            key_name(base[j]),
                        ) {
                            Some(e) => entry_like(base[j], e),
                            None => false,
                        });
                    } else {
                        assert(!spec_has_name(old_keys, nm)) by {
                            if spec_has_name(old_keys, nm) {
                                let j = choose|j: int|
                                    0 <= j < old_keys.len() && key_name(old_keys[j]) == nm;
                            }
                        }
                        if nm == "gemini"@ {
                            assert(spec_lookup(base1, nm) matches Some(e) && e.provider
                                is Gemini && e.api_key is None && !e.masked);
                            assert(spec_lookup(base2, nm) == spec_lookup(base1, nm));
                            assert(spec_lookup(result@, nm) == spec_lookup(base2, nm));
                        } else if nm == "openrouter"@ {
                            assert(!spec_has_name(base1, nm));
                            assert(spec_lookup(base2, nm) matches Some(e) && e.provider
                                is OpenRouter && e.api_key is None && !e.masked);
                            assert(spec_lookup(result@, nm) == spec_lookup(base2, nm));
                        } else {
                            assert(!spec_has_name(base1, nm));
                            assert(!spec_has_name(base2, nm));
                            assert(spec_lookup(result@, nm) matches Some(e) && e.provider
                                is Perplexity && e.api_key is None && !e.masked);
                        }
                    }
                }
            }
        }
        self.api_keys = result;
    }

    /// The configuration as a caller may see it: every entry masked per
    /// its own rule, other fields as stored.
    pub fn public_config(&self) -> (r: AiGenerationConfig)
        ensures
            r.selected_provider == self.selected_provider,
            r.default_note_type_id == self.default_note_type_id,
            r.preferred_model == self.preferred_model,
            r.default_max_cards == self.default_max_cards,
            r.api_keys@.len() == self.api_keys@.len(),
            forall|i: int|
                0 <= i < self.api_keys@.len() ==> {
                    let e = self.api_keys@[i];
                    let p = #[trigger] r.api_keys@[i];
                    p.provider == e.provider && p.masked == (e.masked || e.api_key is Some)
                        && p.api_key == (if e.masked {
                        None::<String>
                    } else {
                        e.api_key
                    })
                },
    {
        let n = self.api_keys.len();
        let mut out: Vec<ProviderApiKey> = Vec::new();
        let mut i: usize = 0;
        while i < n
            invariant
                0 <= i <= n == self.api_keys@.len(),
                out@.len() == i,
                forall|j: int|
                    0 <= j < i ==> {
                        let e = self.api_keys@[j];
                        let p = #[trigger] out@[j];
                        p.provider == e.provider && p.masked == (e.masked || e.api_key is Some)
                            && p.api_key == (if e.masked {
                            None::<String>
                        } else {
                            e.api_key
                        })
                    },
            decreases n - i,
        {
            out.push(self.api_keys[i].public_entry());
            i = i + 1;
        }
        AiGenerationConfig {
            selected_provider: clone_opt_kind(&self.selected_provider),
            default_note_type_id: self.default_note_type_id,
            api_keys: out,
            preferred_model: clone_opt_string(&self.preferred_model),
            default_max_cards: self.default_max_cards,
        }
    }
}

/// The key list held by an optional stored configuration.
pub open spec fn spec_stored_keys(stored: Option<AiGenerationConfig>) -> Seq<ProviderApiKey> {
    match stored {
        Some(c) => c.api_keys@,
        None => Seq::empty(),
    }
}

/// What the secret-preserving merge writes for one incoming entry: a
/// masked entry without plaintext takes the stored key and stored
/// masking (forced on when a key is present); anything else passes
/// through unchanged.
pub open spec fn filled_ok(
    kin: ProviderApiKey,
    prev: Seq<ProviderApiKey>,
    kout: ProviderApiKey,
) -> bool {
    if kin.masked && kin.api_key is None {
        match spec_last_with_name(prev, key_name(kin)) {
            Some(e) => kout.provider == kin.provider && kout.api_key == e.api_key && kout.masked
                == (e.masked || e.api_key is Some),
            None => kout == kin,
        }
    } else {
        kout == kin
    }
}

/// The last entry of `keys` with the given name.
fn lookup_last<'a>(keys: &'a Vec<ProviderApiKey>, name: &Vec<char>) -> (r: Option<
    &'a ProviderApiKey,
>)
    ensures
        match r {
            Some(e) => spec_last_with_name(keys@, name@) == Some(*e),
            None => spec_last_with_name(keys@, name@) is None,
        },
{
    let n = keys.len();
    let mut k: usize = n;
    proof {
        assert(keys@.take(n as int) =~= keys@);
    }
    while k > 0
        invariant
            0 <= k <= n == keys@.len(),
            spec_last_with_name(keys@, name@) == spec_last_with_name(
                keys@.take(k as int),
                name@,
            ),
        decreases k,
    {
        proof {
            assert(keys@.take(k as int).last() == keys@[k - 1]);
            assert(keys@.take(k as int).drop_last() =~= keys@.take(k - 1));
        }
        let kc = crate::text::chars_of(keys[k - 1].provider.as_str());
        if crate::text::chars_eq(&kc, name) {
            return Some(&keys[k - 1]);
        }
        k = k - 1;
    }
    None
}

/// Apply the secret-preserving merge entry by entry.
fn fill_masked_list(keys: &Vec<ProviderApiKey>, prev: &Vec<ProviderApiKey>) -> (r: Vec<
    ProviderApiKey,
>)
    ensures
        r@.len() == keys@.len(),
        forall|i: int|
            0 <= i < keys@.len() ==> filled_ok(keys@[i], prev@, #[trigger] r@[i]),
{
    let n = keys.len();
    let mut out: Vec<ProviderApiKey> = Vec::new();
    let mut i: usize = 0;
    while i < n
        invariant
            0 <= i <= n == keys@.len(),
            out@.len() == i,
            forall|j: int| 0 <= j < i ==> filled_ok(keys@[j], prev@, #[trigger] out@[j]),
        decreases n - i,
    {
        let src = &keys[i];
        if src.masked && src.api_key.is_none() {
            let nc = crate::text::chars_of(src.provider.as_str());
            match lookup_last(prev, &nc) {
                Some(e) => {
                    out.push(
                        ProviderApiKey {
                            provider: clone_kind(&src.provider),
                            api_key: clone_opt_string(&e.api_key),
                            masked: e.masked || e.api_key.is_some(),
                        },
                    );
                },
                None => {
                    out.push(src.clone());
                },
            }
        } else {
            out.push(src.clone());
        }
        i = i + 1;
    }
    out
}

/// The secret-aware store: it holds the one persisted configuration
/// value, read whole before use and written back whole.
#[derive(Debug)]
pub struct AiConfigStore {
    pub stored: Option<AiGenerationConfig>,
}

impl AiConfigStore {
    pub fn new(stored: Option<AiGenerationConfig>) -> (r: Self)
        ensures
            r.stored == stored,
    {
        Self { stored }
    }

    /// Read the configuration: missing persisted data yields the
    /// defaults, and every load re-establishes the default entries.
    pub fn load(&self) -> (r: AiGenerationConfig)
        ensures
            r.selected_provider == (match self.stored {
                Some(c) => c.selected_provider,
                None => None::<ProviderKind>,
            }),
            r.default_note_type_id == (match self.stored {
                Some(c) => c.default_note_type_id,
                None => None::<NotetypeId>,
            }),
            r.preferred_model == (match self.stored {
                Some(c) => c.preferred_model,
                None => None::<String>,
            }),
            r.default_max_cards == (match self.stored {
                Some(c) => c.default_max_cards,
                None => None::<u32>,
            }),
            defaults_ensured(spec_stored_keys(self.stored), r.api_keys@),
    {
        let mut config = match &self.stored {
            Some(c) => c.clone(),
            None => AiGenerationConfig::default(),
        };
        config.ensure_defaults();
        config
    }

    /// Write a configuration. Every incoming entry that is masked and
    /// carries no plaintext re-confirms the stored secret, which is kept
    /// as it was; all other fields overwrite the stored configuration
    /// unconditionally; the default entries are re-established before
    /// the value is stored.
    pub fn save(&mut self, config: &AiGenerationConfig)
        ensures
            final(self).stored matches Some(m) && {
                &&& m.selected_provider == config.selected_provider
                &&& m.default_note_type_id == config.default_note_type_id
                &&& m.preferred_model == config.preferred_model
                &&& m.default_max_cards == config.default_max_cards
                &&& exists|mid: Seq<ProviderApiKey>|
                    {
                        &&& mid.len() == config.api_keys@.len()
                        &&& (forall|i: int|
                            0 <= i < mid.len() ==> filled_ok(
                                config.api_keys@[i],
                                spec_stored_keys(old(self).stored),
                                #[trigger] mid[i],
                            ))
                        &&& defaults_ensured(mid, m.api_keys@)
                    }
            },
    {
        let mut merged = config.clone();
        match &self.stored {
            Some(prev) => {
                merged.api_keys = fill_masked_list(&merged.api_keys, &prev.api_keys);
            },
            None => {},
        }
        let ghost mid = merged.api_keys@;
        proof {
            assert forall|i: int| 0 <= i < mid.len() implies filled_ok(
                config.api_keys@[i],
                spec_stored_keys(self.stored),
                #[trigger] mid[i],
            ) by {
                if self.stored is None {
                    assert(spec_stored_keys(self.stored) =~= Seq::<ProviderApiKey>::empty());
                }
            }
        }
        merged.ensure_defaults();
        proof {
            assert({
                &&& mid.len() == config.api_keys@.len()
                &&& (forall|i: int|
                    0 <= i < mid.len() ==> filled_ok(
                        config.api_keys@[i],
                        spec_stored_keys(old(self).stored),
                        #[trigger] mid[i],
                    ))
                &&& defaults_ensured(mid, merged.api_keys@)
            });
        }
        self.stored = Some(merged);
    }
}

/// A name is defined after merging when either list carries it.
pub open spec fn merge_defined(
    existing: Seq<ProviderApiKey>,
    inc: Seq<ProviderApiKey>,
    n: Seq<char>,
) -> bool {
    spec_has_name(existing, n) || spec_has_name(inc, n)
}

/// What the settings merge stores for name `n`, walking the incoming
/// entries in order: a masked incoming entry leaves the current value
/// (inserting an empty unmasked placeholder when the name is new); an
/// unmasked entry overwrites it with its key trimmed, blank keys
/// dropping to none, and the masked flag set exactly when a key stays.
pub open spec fn spec_merge_rel(
    existing: Seq<ProviderApiKey>,
    inc: Seq<ProviderApiKey>,
    n: Seq<char>,
    out: ProviderApiKey,
) -> bool
    decreases inc.len(),
{
    if inc.len() == 0 {
        spec_last_with_name(existing, n) == Some(out)
    } else if key_name(inc.last()) != n {
        spec_merge_rel(existing, inc.drop_last(), n, out)
    } else {
        let k = inc.last();
        if k.masked {
            if merge_defined(existing, inc.drop_last(), n) {
                spec_merge_rel(existing, inc.drop_last(), n, out)
            } else {
                out.provider == k.provider && out.api_key is None && !out.masked
            }
        } else {
            &&& out.provider == k.provider
            &&& match k.api_key {
                Some(s) => if crate::text::is_blank(s@) {
                    out.api_key is None && !out.masked
                } else {
                    out.api_key matches Some(t) && t@ == crate::text::spec_trim(s@)
                        && out.masked
                },
                None => out.api_key is None && !out.masked,
            }
        }
    }
}

/// The whole merged list: sorted by name, one entry per defined name,
/// each entry related to its inputs by [`spec_merge_rel`].
pub open spec fn merged_keys_ok(
    existing: Seq<ProviderApiKey>,
    inc: Seq<ProviderApiKey>,
    out: Seq<ProviderApiKey>,
) -> bool {
    &&& sorted_unique(out)
    &&& forall|i: int|
        0 <= i < out.len() ==> spec_merge_rel(existing, inc, key_name(#[trigger] out[i]), out[i])
    &&& forall|n: Seq<char>|
        #[trigger] spec_has_name(out, n) <==> merge_defined(existing, inc, n)
}

/// Merge incoming key entries over the existing ones, as a settings
/// write with key persistence does.
pub fn merge_api_keys(existing: &mut Vec<ProviderApiKey>, incoming: Vec<ProviderApiKey>)
    ensures
        merged_keys_ok(old(existing)@, incoming@, final(existing)@),
{
    let ghost old_ex = existing@;
    let ghost inc = incoming@;
    let n = existing.len();
    let mut result: Vec<ProviderApiKey> = Vec::new();
    let mut p: usize = 0;
    while p < n
        invariant
            0 <= p <= n == old_ex.len(),
            existing@ == old_ex,
            sorted_unique(result@),
            forall|i: int|
                0 <= i < result@.len() ==> spec_last_with_name(
                    old_ex.take(p as int),
                    key_name(#[trigger] result@[i]),
                ) == Some(result@[i]),
            forall|nm: Seq<char>|
                #[trigger] spec_has_name(result@, nm) <==> spec_has_name(
                    old_ex.take(p as int),
                    nm,
                ),
        decreases n - p,
    {
        let entry = existing[p].clone();
        let ghost pre = result@;
        upsert_sorted(&mut result, entry);
        proof {
            assert(old_ex.take(p + 1).drop_last() =~= old_ex.take(p as int));
            assert(old_ex.take(p + 1).last() == old_ex[p as int]);
            lemma_sorted_names_unique(result@);
            assert forall|i: int| 0 <= i < result@.len() implies spec_last_with_name(
                old_ex.take(p + 1),
                key_name(#[trigger] result@[i]),
            ) == Some(result@[i]) by {
                let k = result@[i];
                lemma_lookup_self(result@, i);
                if key_name(k) == key_name(entry) {
                    assert(k == entry);
                } else {
                    assert(spec_lookup(result@, key_name(k)) == spec_lookup(pre, key_name(k)));
                    lemma_lookup_has_name(pre, key_name(k));
                }
            }
            assert forall|nm: Seq<char>| #![trigger spec_has_name(result@, nm)]
                spec_has_name(result@, nm) <==> spec_has_name(old_ex.take(p + 1), nm) by {
                if spec_has_name(old_ex.take(p + 1), nm) {
                    let j = choose|j: int|
                        0 <= j < old_ex.take(p + 1).len() && key_name(
                            #[trigger] old_ex.take(p + 1)[j],
                        ) == nm;
                    if j < p {
                        assert(key_name(old_ex.take(p as int)[j]) == nm);
                    }
                }
                if spec_has_name(old_ex.take(p as int), nm) {
                    let j = choose|j: int|
                        0 <= j < old_ex.take(p as int).len() && key_name(
                            #[trigger] old_ex.take(p as int)[j],
                        ) == nm;
                    assert(key_name(old_ex.take(p + 1)[j]) == nm);
                }
            }
        }
        p = p + 1;
    }
    proof {
        assert(old_ex.take(n as int) =~= old_ex);
        assert(inc.take(0) =~= Seq::<ProviderApiKey>::empty());
        assert forall|i: int| 0 <= i < result@.len() implies spec_merge_rel(
            old_ex,
            inc.take(0),
            key_name(#[trigger] result@[i]),
            result@[i],
        ) by {}
    }
    let m = incoming.len();
    let mut q: usize = 0;
    while q < m
        invariant
            0 <= q <= m == inc.len(),
            incoming@ == inc,
            sorted_unique(result@),
            forall|i: int|
                0 <= i < result@.len() ==> spec_merge_rel(
                    old_ex,
                    inc.take(q as int),
                    key_name(#[trigger] result@[i]),
                    result@[i],
                ),
            forall|nm: Seq<char>|
                #[trigger] spec_has_name(result@, nm) <==> merge_defined(
                    old_ex,
                    inc.take(q as int),
                    nm,
                ),
        decreases m - q,
    {
        let k = &incoming[q];
        let ghost kname = key_name(inc[q as int]);
        let nc = crate::text::chars_of(k.provider.as_str());
        let (_pos, found) = position_for(&result, &nc);
        let ghost pre = result@;
        if !found {
            proof {
                if spec_has_name(result@, kname) {
                    let j = choose|j: int|
                        0 <= j < result@.len() && key_name(result@[j]) == kname;
                    lemma_sorted_names_unique(result@);
                    lemma_lookup_self(result@, j);
                    if j < _pos {
                    } else if j > _pos {
                        if (_pos as int) < result@.len() {
                            crate::text::lemma_lex_strict_order(
                                kname,
                                key_name(result@[_pos as int]),
                                key_name(result@[j]),
                            );
                        }
                        crate::text::lemma_lex_strict_order(kname, kname, kname);
                    } else {
                        crate::text::lemma_lex_strict_order(
                            kname,
                            key_name(result@[_pos as int]),
                            key_name(result@[_pos as int]),
                        );
                    }
                    crate::text::lemma_lex_strict_order(
                        key_name(result@[j]),
                        key_name(result@[j]),
                        key_name(result@[j]),
                    );
                    assert(false);
                }
            }
            let placeholder = ProviderApiKey {
                provider: clone_kind(&k.provider),
                api_key: None,
                masked: false,
            };
            upsert_sorted(&mut result, placeholder);
        } else {
            proof {
                assert(spec_has_name(result@, kname));
            }
        }
        let ghost mid = result@;
        if !k.masked {
            let trimmed: Option<String> = match &k.api_key {
                Some(s) => {
                    let tc = crate::text::chars_trimmed(s.as_str());
                    if tc.len() == 0 {
                        None
                    } else {
                        Some(crate::text::string_of_chars(&tc))
                    }
                },
                None => None,
            };
            let masked = trimmed.is_some();
            let replacement = ProviderApiKey {
                provider: clone_kind(&k.provider),
                api_key: trimmed,
                masked,
            };
            upsert_sorted(&mut result, replacement);
        }
        proof {
            assert(inc.take(q + 1).drop_last() =~= inc.take(q as int));
            assert(inc.take(q + 1).last() == inc[q as int]);
            lemma_sorted_names_unique(result@);
            assert forall|i: int| 0 <= i < result@.len() implies spec_merge_rel(
                old_ex,
                inc.take(q + 1),
                key_name(#[trigger] result@[i]),
                result@[i],
            ) by {
                let x = result@[i];
                let nm = key_name(x);
                lemma_lookup_self(result@, i);
                if nm == kname {
                    if inc[q as int].masked {
                        if merge_defined(old_ex, inc.take(q as int), nm) {
                            assert(spec_has_name(pre, nm));
                            assert(mid == pre);
                            assert(spec_lookup(result@, nm) == spec_lookup(mid, nm));
                            lemma_lookup_has_name(pre, nm);
                            let j = choose|j: int| 0 <= j < pre.len() && pre[j] == x;
                        } else {
                            assert(!spec_has_name(pre, nm));
                            assert(spec_lookup(mid, nm) matches Some(e) && e.provider
                                == inc[q as int].provider && e.api_key is None && !e.masked);
                            assert(spec_lookup(result@, nm) == spec_lookup(mid, nm));
                        }
                    } else {
                        assert(spec_lookup(result@, nm) == Some(x));
                    }
                } else {
                    assert(spec_lookup(result@, nm) == spec_lookup(mid, nm));
                    assert(spec_lookup(mid, nm) == spec_lookup(pre, nm));
                    lemma_lookup_has_name(pre, nm);
                    let j = choose|j: int| 0 <= j < pre.len() && pre[j] == x;
                }
            }
            assert forall|nm: Seq<char>| #![trigger spec_has_name(result@, nm)]
                spec_has_name(result@, nm) <==> merge_defined(old_ex, inc.take(q + 1), nm) by {
                if spec_has_name(inc.take(q + 1), nm) {
                    let j = choose|j: int|
                        0 <= j < inc.take(q + 1).len() && key_name(
                            #[trigger] inc.take(q + 1)[j],
                        ) == nm;
                    if j < q {
                        assert(key_name(inc.take(q as int)[j]) == nm);
                    }
                }
                if spec_has_name(inc.take(q as int), nm) {
                    let j = choose|j: int|
                        0 <= j < inc.take(q as int).len() && key_name(
                            #[trigger] inc.take(q as int)[j],
                        ) == nm;
                    assert(key_name(inc.take(q + 1)[j]) == nm);
                }
            }
        }
        q = q + 1;
    }
    proof {
        assert(inc.take(m as int) =~= inc);
    }
    *existing = result;
}

impl AiConfigStore {
    /// Apply a settings write: the non-secret fields overwrite the
    /// stored configuration unconditionally; key entries are merged only
    /// when the caller asked to persist them; defaults are
    /// re-established and the secret-preserving save runs last.
    pub fn set_ai_config(&mut self, incoming: &AiGenerationConfig, persist_api_keys: bool)
        ensures
            final(self).stored matches Some(m) && {
                &&& m.selected_provider == (if incoming.selected_provider is Some {
                    incoming.selected_provider
                } else {
                    match old(self).stored {
                        Some(c) => c.selected_provider,
                        None => None::<ProviderKind>,
                    }
                })
                &&& m.default_note_type_id == incoming.default_note_type_id
                &&& m.preferred_model == incoming.preferred_model
                &&& m.default_max_cards == incoming.default_max_cards
                &&& exists|steps: (Seq<ProviderApiKey>, Seq<ProviderApiKey>, Seq<ProviderApiKey>)|
                    {
                        &&& #[trigger] defaults_ensured(
                            spec_stored_keys(old(self).stored),
                            steps.0,
                        )
                        &&& (if persist_api_keys {
                            merged_keys_ok(steps.0, incoming.api_keys@, steps.1)
                        } else {
                            steps.1 == steps.0
                        })
                        &&& defaults_ensured(steps.1, steps.2)
                        &&& exists|mid: Seq<ProviderApiKey>|
                            {
                                &&& mid.len() == steps.2.len()
                                &&& (forall|i: int|
                                    0 <= i < mid.len() ==> filled_ok(
                                        steps.2[i],
                                        spec_stored_keys(old(self).stored),
                                        #[trigger] mid[i],
                                    ))
                                &&& defaults_ensured(mid, m.api_keys@)
                            }
                    }
            },
    {
        let mut current = self.load();
        if incoming.selected_provider.is_some() {
            current.selected_provider = clone_opt_kind(&incoming.selected_provider);
        }
        current.default_note_type_id = incoming.default_note_type_id;
        current.preferred_model = clone_opt_string(&incoming.preferred_model);
        current.default_max_cards = incoming.default_max_cards;
        let ghost loaded = current.api_keys@;
        if persist_api_keys {
            let inc_keys = copy_keys(&incoming.api_keys);
            merge_api_keys(&mut current.api_keys, inc_keys);
        }
        let ghost merged = current.api_keys@;
        current.ensure_defaults();
        let ghost ensured = current.api_keys@;
        self.save(&current);
        proof {
            let steps = (loaded, merged, ensured);
            assert(defaults_ensured(spec_stored_keys(old(self).stored), steps.0));
            assert(if persist_api_keys {
                merged_keys_ok(steps.0, incoming.api_keys@, steps.1)
            } else {
                steps.1 == steps.0
            });
            assert(defaults_ensured(steps.1, steps.2));
            let m = final(self).stored->0;
            assert(exists|mid: Seq<ProviderApiKey>|
                {
                    &&& mid.len() == steps.2.len()
                    &&& (forall|i: int|
                        0 <= i < mid.len() ==> filled_ok(
                            steps.2[i],
                            spec_stored_keys(old(self).stored),
                            #[trigger] mid[i],
                        ))
                    &&& defaults_ensured(mid, m.api_keys@)
                });
        }
    }
}

/// Filling masked entries is pointwise and keeps names, so it carries
/// the last entry with any name along.
proof fn lemma_filled_last(
    cfg: Seq<ProviderApiKey>,
    prev: Seq<ProviderApiKey>,
    mid: Seq<ProviderApiKey>,
    n: Seq<char>,
)
    requires
        mid.len() == cfg.len(),
        forall|j: int| 0 <= j < mid.len() ==> filled_ok(cfg[j], prev, #[trigger] mid[j]),
    ensures
        spec_last_with_name(cfg, n) is None <==> spec_last_with_name(mid, n) is None,
        spec_last_with_name(cfg, n) matches Some(kin) ==> (spec_last_with_name(mid, n)
            matches Some(kout) && filled_ok(kin, prev, kout)),
    decreases cfg.len(),
{
    if cfg.len() > 0 {
        assert(filled_ok(cfg[cfg.len() - 1], prev, mid[mid.len() - 1]));
        assert(key_name(mid.last()) == key_name(cfg.last()));
        if key_name(cfg.last()) == n {
        } else {
            assert(forall|j: int|
                0 <= j < mid.drop_last().len() ==> filled_ok(
                    cfg.drop_last()[j],
                    prev,
                    #[trigger] mid.drop_last()[j],
                )) by {
                assert(forall|j: int|
                    0 <= j < mid.drop_last().len() ==> #[trigger] mid.drop_last()[j] == mid[j]
                        && cfg.drop_last()[j] == cfg[j]);
            }
            lemma_filled_last(cfg.drop_last(), prev, mid.drop_last(), n);
        }
    }
}

/// Law: a save whose incoming entry for a provider is masked and carries
/// no plaintext keeps the stored plaintext for that provider, and the
/// stored masking is preserved (forced on whenever a key is present).
pub proof fn lemma_save_keeps_masked_secret(
    prev: Seq<ProviderApiKey>,
    cfg: Seq<ProviderApiKey>,
    mid: Seq<ProviderApiKey>,
    out: Seq<ProviderApiKey>,
    i: int,
    n: Seq<char>,
)
    requires
        mid.len() == cfg.len(),
        forall|j: int| 0 <= j < mid.len() ==> filled_ok(cfg[j], prev, #[trigger] mid[j]),
        defaults_ensured(mid, out),
        0 <= i < out.len(),
        key_name(out[i]) == n,
        spec_last_with_name(cfg, n) matches Some(kin) && kin.masked && kin.api_key is None,
        spec_last_with_name(prev, n) is Some,
    ensures
        out[i].api_key == spec_last_with_name(prev, n)->0.api_key,
        out[i].masked == (spec_last_with_name(prev, n)->0.masked || spec_last_with_name(
            prev,
            n,
        )->0.api_key is Some),
{
    lemma_filled_last(cfg, prev, mid, n);
    let kout = spec_last_with_name(mid, n)->0;
    assert(filled_ok(spec_last_with_name(cfg, n)->0, prev, kout));
    assert(entry_like(out[i], spec_last_with_name(mid, key_name(out[i]))->0));
}

/// Law: a save whose incoming entry for a provider is unmasked
/// overwrites the stored entry with the incoming key and masking; a
/// subsequent read masks it again whenever a key is present.
pub proof fn lemma_save_overwrites_unmasked(
    prev: Seq<ProviderApiKey>,
    cfg: Seq<ProviderApiKey>,
    mid: Seq<ProviderApiKey>,
    out: Seq<ProviderApiKey>,
    i: int,
    n: Seq<char>,
)
    requires
        mid.len() == cfg.len(),
        forall|j: int| 0 <= j < mid.len() ==> filled_ok(cfg[j], prev, #[trigger] mid[j]),
        defaults_ensured(mid, out),
        0 <= i < out.len(),
        key_name(out[i]) == n,
        spec_last_with_name(cfg, n) matches Some(kin) && !kin.masked,
    ensures
        out[i].api_key == spec_last_with_name(cfg, n)->0.api_key,
        out[i].masked == spec_last_with_name(cfg, n)->0.masked,
{
    lemma_filled_last(cfg, prev, mid, n);
    let kout = spec_last_with_name(mid, n)->0;
    assert(filled_ok(spec_last_with_name(cfg, n)->0, prev, kout));
    assert(entry_like(out[i], spec_last_with_name(mid, key_name(out[i]))->0));
}

} // verus!
