//! What a field of a request may hold, and the form in which it is kept.

use vstd::prelude::*;

use crate::managed_control_plane::types;
use crate::managed_control_plane::types::Labels;
use crate::ordered;
use crate::ordered::KeyMap;
use crate::text;

verus! {

/// The most bytes that an identifier may take.
pub const MAX_RESOURCE_ID_LEN: usize = 128;

/// An identifier without the white space around it, or what is wrong with it.
pub open spec fn resource_id(field: Seq<char>, value: Seq<char>) -> Result<Seq<char>, Seq<char>> {
    let id = text::trimmed(value);
    if id.len() == 0 {
        Err(field + " must not be empty"@)
    } else if text::utf8_len(id) > MAX_RESOURCE_ID_LEN {
        Err(
            field + " must be at most "@ + text::decimal(MAX_RESOURCE_ID_LEN as nat)
                + " characters"@,
        )
    } else if text::has_control(id) {
        Err(field + " must not contain control characters"@)
    } else {
        Ok(id)
    }
}

/// A text without the white space around it, or what is wrong with it.
pub open spec fn non_empty_field(field: Seq<char>, value: Seq<char>) -> Result<
    Seq<char>,
    Seq<char>,
> {
    let inner = text::trimmed(value);
    if inner.len() == 0 {
        Err(field + " must not be empty"@)
    } else if text::has_control(inner) {
        Err(field + " must not contain control characters"@)
    } else {
        Ok(inner)
    }
}

/// An optional text without the white space around it; white space alone is no text.
pub open spec fn optional_field(value: Option<Seq<char>>) -> Option<Seq<char>> {
    match value {
        Some(given) => if text::trimmed(given).len() == 0 {
            None
        } else {
            Some(text::trimmed(given))
        },
        None => None,
    }
}

/// What an outcome with texts says.
pub open spec fn outcome_text(outcome: Result<String, String>) -> Result<Seq<char>, Seq<char>> {
    match outcome {
        Ok(value) => Ok(value@),
        Err(message) => Err(message@),
    }
}

/// Checks an identifier and trims it.
pub fn validate_resource_id(field: &str, value: &str) -> (checked: Result<String, String>)
    ensures
        outcome_text(checked) == resource_id(field@, value@),
{
    let id = text::trim(value);
    if id.is_empty() {
        return Err(text::text2(field, " must not be empty"));
    }
    if text::byte_len(id) > MAX_RESOURCE_ID_LEN {
        return Err(
            text::text4(
                field,
                " must be at most ",
                text::format_usize(MAX_RESOURCE_ID_LEN).as_str(),
                " characters",
            ),
        );
    }
    if text::contains_control(id) {
        return Err(text::text2(field, " must not contain control characters"));
    }
    Ok(text::owned(id))
}

/// Checks a text and trims it.
pub fn validate_non_empty_field(field: &str, value: &str) -> (checked: Result<String, String>)
    ensures
        outcome_text(checked) == non_empty_field(field@, value@),
{
    let inner = text::trim(value);
    if inner.is_empty() {
        return Err(text::text2(field, " must not be empty"));
    }
    if text::contains_control(inner) {
        return Err(text::text2(field, " must not contain control characters"));
    }
    Ok(text::owned(inner))
}

/// Trims an optional text; white space alone is no text.
pub fn normalize_optional_field(value: &Option<String>) -> (kept: Option<String>)
    ensures
        text::opt_text(kept) == optional_field(text::opt_text(*value)),
        kept is Some == optional_field(text::opt_text(*value)) is Some,
{
    match value {
        Some(given) => {
            let inner = text::trim(given.as_str());
            if inner.is_empty() {
                None
            } else {
                Some(text::owned(inner))
            }
        },
        None => None,
    }
}

/// Labels with their names and values trimmed, given in the order of their names. Where two names
/// become one, the later value stays.
pub open spec fn labels_kept(
    field: Seq<char>,
    listed: Seq<(Seq<char>, Seq<char>)>,
) -> Result<Map<Seq<char>, Seq<char>>, Seq<char>>
    decreases listed.len(),
{
    if listed.len() == 0 {
        Ok(Map::empty())
    } else {
        match labels_kept(field, listed.drop_last()) {
            Err(message) => Err(message),
            Ok(before) => match non_empty_field(field, listed.last().0) {
                Err(message) => Err(message),
                Ok(key) => match non_empty_field(field, listed.last().1) {
                    Err(message) => Err(message),
                    Ok(value) => Ok(before.insert(key, value)),
                },
            },
        }
    }
}

/// Labels with their names and values trimmed.
pub open spec fn normalized_labels(
    field: Seq<char>,
    labels: Map<Seq<char>, Seq<char>>,
) -> Result<Map<Seq<char>, Seq<char>>, Seq<char>> {
    labels_kept(field, ordered::listing::<String, Seq<char>>(labels))
}

proof fn lemma_labels_stop(field: Seq<char>, listed: Seq<(Seq<char>, Seq<char>)>, n: int)
    requires
        0 <= n <= listed.len(),
        labels_kept(field, listed.subrange(0, n)) is Err,
    ensures
        labels_kept(field, listed) == labels_kept(field, listed.subrange(0, n)),
    decreases listed.len(),
{
    if n == listed.len() {
        assert(listed.subrange(0, n) =~= listed);
    } else {
        assert(listed.drop_last().subrange(0, n) =~= listed.subrange(0, n));
        lemma_labels_stop(field, listed.drop_last(), n);
    }
}

/// Trims the names and values of labels and checks each of them.
pub fn normalize_labels(labels: &Labels, field: &str) -> (kept: Result<Labels, String>)
    ensures
        match normalized_labels(field@, labels@) {
            Ok(expected) => kept matches Ok(found) && found@ == expected,
            Err(message) => kept matches Err(text) && text@ == message,
        },
{
    let n: usize = labels.len();
    let ghost listed = labels.entries();
    proof {
        ordered::lemma_listing::<String, Seq<char>>(listed);
    }
    let mut kept = Labels::new();
    let mut i: usize = 0;
    while i < n
        invariant
            i <= n,
            n == listed.len(),
            listed == labels.entries(),
            listed == ordered::listing::<String, Seq<char>>(labels@),
            labels_kept(field@, listed.subrange(0, i as int)) == Ok::<
                Map<Seq<char>, Seq<char>>,
                Seq<char>,
            >(kept@),
        decreases n - i,
    {
        proof {
            let reached = listed.subrange(0, i as int + 1);
            assert(reached.drop_last() =~= listed.subrange(0, i as int));
        }
        let key = match validate_non_empty_field(field, labels.key_at(i).as_str()) {
            Ok(key) => key,
            Err(message) => {
                proof {
                    lemma_labels_stop(field@, listed, i as int + 1);
                }
                return Err(message);
            },
        };
        let value = match validate_non_empty_field(field, labels.value_at(i).as_str()) {
            Ok(value) => value,
            Err(message) => {
                proof {
                    lemma_labels_stop(field@, listed, i as int + 1);
                }
                return Err(message);
            },
        };
        kept.insert(key, value);
        i = i + 1;
    }
    proof {
        assert(listed.subrange(0, i as int) =~= listed);
    }
    Ok(kept)
}

/// What stands beside a key of which only its presence matters.
#[derive(Debug, Clone, Copy, PartialEq, Eq)]
pub struct Present;

impl View for Present {
    type V = ();

    open spec fn view(&self) -> () {
        ()
    }
}

/// The texts of a list, trimmed, or what is wrong with the first that is refused.
pub open spec fn list_members(field: Seq<char>, values: Seq<Seq<char>>) -> Result<
    Map<Seq<char>, ()>,
    Seq<char>,
>
    decreases values.len(),
{
    if values.len() == 0 {
        Ok(Map::empty())
    } else {
        match list_members(field, values.drop_last()) {
            Err(message) => Err(message),
            Ok(before) => match non_empty_field(field, values.last()) {
                Err(message) => Err(message),
                Ok(value) => Ok(before.insert(value, ())),
            },
        }
    }
}

/// The keys of a map in their order.
pub open spec fn keys_listed(members: Map<Seq<char>, ()>) -> Seq<Seq<char>> {
    let listed = ordered::listing::<String, ()>(members);
    Seq::new(listed.len(), |i: int| listed[i].0)
}

/// The texts of a list, trimmed, in their order and without repetition.
pub open spec fn normalized_list(field: Seq<char>, values: Seq<Seq<char>>) -> Result<
    Seq<Seq<char>>,
    Seq<char>,
> {
    match list_members(field, values) {
        Ok(members) => Ok(keys_listed(members)),
        Err(message) => Err(message),
    }
}

proof fn lemma_list_stops(field: Seq<char>, values: Seq<Seq<char>>, n: int)
    requires
        0 <= n <= values.len(),
        list_members(field, values.subrange(0, n)) is Err,
    ensures
        list_members(field, values) == list_members(field, values.subrange(0, n)),
    decreases values.len(),
{
    if n == values.len() {
        assert(values.subrange(0, n) =~= values);
    } else {
        assert(values.drop_last().subrange(0, n) =~= values.subrange(0, n));
        lemma_list_stops(field, values.drop_last(), n);
    }
}

/// Trims the texts of a list, sorts them and drops repetitions.
pub fn normalize_string_list(values: &Vec<String>, field: &str) -> (kept: Result<
    Vec<String>,
    String,
>)
    ensures
        match normalized_list(field@, types::texts(values@)) {
            Ok(expected) => kept matches Ok(found) && types::texts(found@) == expected,
            Err(message) => kept matches Err(text) && text@ == message,
        },
{
    let ghost given = types::texts(values@);
    let mut members: KeyMap<String, Present> = KeyMap::new();
    let mut i: usize = 0;
    while i < values.len()
        invariant
            i <= values.len(),
            given == types::texts(values@),
            list_members(field@, given.subrange(0, i as int)) == Ok::<
                Map<Seq<char>, ()>,
                Seq<char>,
            >(members@),
        decreases values.len() - i,
    {
        proof {
            let reached = given.subrange(0, i as int + 1);
            assert(reached.drop_last() =~= given.subrange(0, i as int));
        }
        match validate_non_empty_field(field, values[i].as_str()) {
            Ok(value) => members.insert(value, Present),
            Err(message) => {
                proof {
                    lemma_list_stops(field@, given, i as int + 1);
                }
                return Err(message);
            },
        }
        i = i + 1;
    }
    proof {
        assert(given.subrange(0, i as int) =~= given);
    }
    let n: usize = members.len();
    proof {
        ordered::lemma_listing::<String, ()>(members.entries());
    }
    let ghost listed = members.entries();
    let mut kept: Vec<String> = Vec::new();
    let mut j: usize = 0;
    while j < n
        invariant
            j <= n,
            n == listed.len(),
            listed == members.entries(),
            kept@.len() == j,
            forall|k: int| 0 <= k < j ==> (#[trigger] kept@[k])@ == listed[k].0,
        decreases n - j,
    {
        kept.push(members.key_at(j).clone());
        j = j + 1;
    }
    assert(types::texts(kept@) =~= keys_listed(members@));
    Ok(kept)
}

} // verus!
