//! Settings saved by earlier versions, brought to the current shape.
use vstd::prelude::*;
use crate::text::owned;

verus! {

/// A JSON value; numbers are kept as their text. An object holds each key at most once.
#[derive(Debug)]
pub enum JsonValue {
    Null,
    Bool(bool),
    Number(String),
    Str(String),
    Array(Vec<JsonValue>),
    Object(Vec<(String, JsonValue)>),
}

// ---------------------------------------------------------------------------------------------
// Objects as maps
// ---------------------------------------------------------------------------------------------

/// No key occurs twice.
pub open spec fn keys_unique(e: Seq<(String, JsonValue)>) -> bool {
    forall|i: int, j: int|
        0 <= i < e.len() && 0 <= j < e.len() && i != j ==> (#[trigger] e[i].0)@ != (
        #[trigger] e[j].0)@
}

/// The object has key `k`.
pub open spec fn has_key(e: Seq<(String, JsonValue)>, k: Seq<char>) -> bool {
    exists|i: int| 0 <= i < e.len() && (#[trigger] e[i].0)@ == k
}

/// The value under key `k`, if any.
pub open spec fn lookup(e: Seq<(String, JsonValue)>, k: Seq<char>) -> Option<JsonValue> {
    if has_key(e, k) {
        Some(e[choose|i: int| 0 <= i < e.len() && (#[trigger] e[i].0)@ == k].1)
    } else {
        None
    }
}

proof fn lemma_lookup_at(e: Seq<(String, JsonValue)>, i: int)
    requires
        keys_unique(e),
        0 <= i < e.len(),
    ensures
        lookup(e, e[i].0@) == Some(e[i].1),
{
    assert(has_key(e, e[i].0@));
    let j = choose|j: int| 0 <= j < e.len() && (#[trigger] e[j].0)@ == e[i].0@;
    if j != i {
        assert(e[j].0@ != e[i].0@);
    }
}

proof fn lemma_lookup_push(e: Seq<(String, JsonValue)>, k: String, v: JsonValue, q: Seq<char>)
    requires
        keys_unique(e),
        !has_key(e, k@),
    ensures
        keys_unique(e.push((k, v))),
        lookup(e.push((k, v)), q) == if q == k@ {
            Some(v)
        } else {
            lookup(e, q)
        },
{
    let f = e.push((k, v));
    assert(keys_unique(f)) by {
        assert forall|i: int, j: int|
            0 <= i < f.len() && 0 <= j < f.len() && i != j implies (#[trigger] f[i].0)@ != (
            #[trigger] f[j].0)@ by {
            if i < e.len() && j < e.len() {
                assert(f[i] == e[i] && f[j] == e[j]);
            } else if i == e.len() {
                assert(f[j] == e[j]);
            } else {
                assert(f[i] == e[i]);
            }
        }
    }
    if q == k@ {
        lemma_lookup_at(f, e.len() as int);
    } else if has_key(e, q) {
        let i = choose|i: int| 0 <= i < e.len() && (#[trigger] e[i].0)@ == q;
        lemma_lookup_at(e, i);
        assert(f[i] == e[i]);
        lemma_lookup_at(f, i);
    } else {
        assert(!has_key(f, q)) by {
            if has_key(f, q) {
                let i = choose|i: int| 0 <= i < f.len() && (#[trigger] f[i].0)@ == q;
                if i < e.len() {
                    assert(f[i] == e[i]);
                }
            }
        }
    }
}

proof fn lemma_lookup_remove(e: Seq<(String, JsonValue)>, i: int, q: Seq<char>)
    requires
        keys_unique(e),
        0 <= i < e.len(),
    ensures
        keys_unique(e.remove(i)),
        lookup(e.remove(i), q) == if q == e[i].0@ {
            None
        } else {
            lookup(e, q)
        },
{
    let f = e.remove(i);
    assert forall|a: int| 0 <= a < f.len() implies f[a] == e[if a < i {
        a
    } else {
        a + 1
    }] by {}
    assert(keys_unique(f)) by {
        assert forall|a: int, b: int|
            0 <= a < f.len() && 0 <= b < f.len() && a != b implies (#[trigger] f[a].0)@ != (
            #[trigger] f[b].0)@ by {
            let a2 = if a < i {
                a
            } else {
                a + 1
            };
            let b2 = if b < i {
                b
            } else {
                b + 1
            };
            assert(f[a] == e[a2] && f[b] == e[b2]);
        }
    }
    if q == e[i].0@ {
        assert(!has_key(f, q)) by {
            if has_key(f, q) {
                let a = choose|a: int| 0 <= a < f.len() && (#[trigger] f[a].0)@ == q;
                let a2 = if a < i {
                    a
                } else {
                    a + 1
                };
                assert(f[a] == e[a2]);
            }
        }
    } else if has_key(e, q) {
        let j = choose|j: int| 0 <= j < e.len() && (#[trigger] e[j].0)@ == q;
        lemma_lookup_at(e, j);
        let j2 = if j < i {
            j
        } else {
            j - 1
        };
        assert(f[j2] == e[j]);
        lemma_lookup_at(f, j2);
    } else {
        assert(!has_key(f, q)) by {
            if has_key(f, q) {
                let a = choose|a: int| 0 <= a < f.len() && (#[trigger] f[a].0)@ == q;
                let a2 = if a < i {
                    a
                } else {
                    a + 1
                };
                assert(f[a] == e[a2]);
            }
        }
    }
}

proof fn lemma_lookup_update(e: Seq<(String, JsonValue)>, i: int, k: String, v: JsonValue, q: Seq<char>)
    requires
        keys_unique(e),
        0 <= i < e.len(),
        k@ == e[i].0@,
    ensures
        keys_unique(e.update(i, (k, v))),
        lookup(e.update(i, (k, v)), q) == if q == k@ {
            Some(v)
        } else {
            lookup(e, q)
        },
{
    let f = e.update(i, (k, v));
    assert(keys_unique(f)) by {
        assert forall|a: int, b: int|
            0 <= a < f.len() && 0 <= b < f.len() && a != b implies (#[trigger] f[a].0)@ != (
            #[trigger] f[b].0)@ by {
            assert(f[a].0@ == e[a].0@ && f[b].0@ == e[b].0@);
        }
    }
    if q == k@ {
        lemma_lookup_at(f, i);
    } else if has_key(e, q) {
        let j = choose|j: int| 0 <= j < e.len() && (#[trigger] e[j].0)@ == q;
        lemma_lookup_at(e, j);
        assert(f[j] == e[j]);
        lemma_lookup_at(f, j);
    } else {
        assert(!has_key(f, q)) by {
            if has_key(f, q) {
                let a = choose|a: int| 0 <= a < f.len() && (#[trigger] f[a].0)@ == q;
                assert(f[a].0@ == e[a].0@);
            }
        }
    }
}

/// The index of key `k`, if present.
fn find_key(e: &Vec<(String, JsonValue)>, k: &String) -> (r: Option<usize>)
    ensures
        match r {
            Some(i) => i < e@.len() && e@[i as int].0@ == k@,
            None => !has_key(e@, k@),
        },
{
    let n = e.len();
    for i in 0..n
        invariant
            n == e@.len(),
            forall|j: int| 0 <= j < i ==> (#[trigger] e@[j].0)@ != k@,
    {
        if e[i].0 == *k {
            return Some(i);
        }
    }
    None
}

/// Sets key `k` to `v`, replacing its value when present (`Map::insert`).
fn object_insert(e: &mut Vec<(String, JsonValue)>, k: String, v: JsonValue)
    requires
        keys_unique(old(e)@),
    ensures
        keys_unique(final(e)@),
        forall|q: Seq<char>|
            #![trigger lookup(final(e)@, q)]
            lookup(final(e)@, q) == if q == k@ {
                Some(v)
            } else {
                lookup(old(e)@, q)
            },
{
    let ghost kk = k;
    let ghost vv = v;
    match find_key(e, &k) {
        Some(i) => {
            let ghost before = e@;
            e.set(i, (k, v));
            proof {
                assert forall|q: Seq<char>| #![trigger lookup(e@, q)] lookup(e@, q) == if q == kk@ {
                    Some(vv)
                } else {
                    lookup(before, q)
                } by {
                    lemma_lookup_update(before, i as int, kk, vv, q);
                }
                lemma_lookup_update(before, i as int, kk, vv, kk@);
            }
        },
        None => {
            let ghost before = e@;
            e.push((k, v));
            proof {
                assert forall|q: Seq<char>| #![trigger lookup(e@, q)] lookup(e@, q) == if q == kk@ {
                    Some(vv)
                } else {
                    lookup(before, q)
                } by {
                    lemma_lookup_push(before, kk, vv, q);
                }
                lemma_lookup_push(before, kk, vv, kk@);
            }
        },
    }
}

/// Removes key `k` and returns its value (`Map::remove`).
fn object_remove(e: &mut Vec<(String, JsonValue)>, k: &String) -> (r: Option<JsonValue>)
    requires
        keys_unique(old(e)@),
    ensures
        keys_unique(final(e)@),
        r == lookup(old(e)@, k@),
        forall|q: Seq<char>|
            #![trigger lookup(final(e)@, q)]
            lookup(final(e)@, q) == if q == k@ {
                None
            } else {
                lookup(old(e)@, q)
            },
{
    match find_key(e, k) {
        Some(i) => {
            let ghost before = e@;
            proof {
                lemma_lookup_at(before, i as int);
            }
            let (_, v) = e.remove(i);
            proof {
                assert forall|q: Seq<char>| #![trigger lookup(e@, q)] lookup(e@, q) == if q == k@ {
                    None
                } else {
                    lookup(before, q)
                } by {
                    lemma_lookup_remove(before, i as int, q);
                }
                lemma_lookup_remove(before, i as int, k@);
            }
            Some(v)
        },
        None => {
            assert forall|q: Seq<char>| #![trigger lookup(e@, q)] q == k@ implies lookup(e@, q)
                is None by {}
            None
        },
    }
}

// ---------------------------------------------------------------------------------------------
// The migration
// ---------------------------------------------------------------------------------------------

/// `inputSources`
pub open spec fn key_input_sources() -> Seq<char> {
    "inputSources"@
}

/// `inputDir`
pub open spec fn key_input_dir() -> Seq<char> {
    "inputDir"@
}

/// `resizeMode`
pub open spec fn key_resize_mode() -> Seq<char> {
    "resizeMode"@
}

/// A string value with the given text.
pub open spec fn is_str(v: JsonValue, text: Seq<char>) -> bool {
    v matches JsonValue::Str(s) && s@ == text
}

/// A number value with the given text.
pub open spec fn is_num(v: JsonValue, text: Seq<char>) -> bool {
    v matches JsonValue::Number(s) && s@ == text
}

/// The keys that receive a default when absent, other than `resizeMode`, with the default
/// each receives.
pub open spec fn default_holds(k: Seq<char>, v: JsonValue) -> bool {
    if k == "width"@ || k == "height"@ {
        is_num(v, "2000"@)
    } else if k == "allowUpscale"@ || k == "thumbnail"@ {
        v == JsonValue::Bool(false)
    } else if k == "cropHorizontal"@ || k == "cropVertical"@ {
        is_str(v, "center"@)
    } else {
        is_str(v, "auto"@)
    }
}

/// A key that receives a default when absent, other than `resizeMode`.
pub open spec fn is_default_key(k: Seq<char>) -> bool {
    k == "width"@ || k == "height"@ || k == "allowUpscale"@ || k == "cropHorizontal"@ || k
        == "cropVertical"@ || k == "rotation"@ || k == "thumbnail"@
}

/// `b` is `a` with every absent option set to its default: `resizeMode` to `fitLongestSide`
/// and the keys of `is_default_key` as `default_holds` says.
pub open spec fn defaults_applied(a: Seq<(String, JsonValue)>, b: Seq<(String, JsonValue)>) -> bool {
    &&& keys_unique(b)
    &&& forall|q: Seq<char>|
        #![trigger lookup(b, q)]
        if q == key_resize_mode() && lookup(a, q) is None {
            lookup(b, q) matches Some(v) && is_str(v, "fitLongestSide"@)
        } else if is_default_key(q) && lookup(a, q) is None {
            lookup(b, q) matches Some(v) && default_holds(q, v)
        } else {
            lookup(b, q) == lookup(a, q)
        }
}

/// The legacy single input directory is converted when there is no source list.
pub open spec fn legacy_input(e: Seq<(String, JsonValue)>) -> bool {
    lookup(e, key_input_sources()) is None && lookup(e, key_input_dir()) is Some
}

/// The source list made of a legacy input directory: the directory when it is a non-empty
/// string, nothing otherwise.
pub open spec fn sources_from_dir(dir: JsonValue, v: JsonValue) -> bool {
    v matches JsonValue::Array(items) && if (dir matches JsonValue::Str(s) && s@.len() > 0) {
        items@.len() == 1 && is_str(items@[0], dir->Str_0@)
    } else {
        items@.len() == 0
    }
}

/// `after` is the migration of the settings object `before`: a legacy `inputDir` becomes the
/// `inputSources` list when that list is missing; missing options get their defaults
/// (`resizeMode` `fitLongestSide`, `width` and `height` 2000, `allowUpscale` and `thumbnail`
/// false, both crop anchors `center`, `rotation` `auto`); the retired `fillCrop` mode becomes
/// `fixedCrop`; every other key is kept.
pub open spec fn migrated(before: Seq<(String, JsonValue)>, after: Seq<(String, JsonValue)>) -> bool {
    &&& keys_unique(after)
    &&& legacy_input(before) ==> lookup(after, key_input_dir()) is None && (lookup(
        after,
        key_input_sources(),
    ) matches Some(v) && sources_from_dir(lookup(before, key_input_dir())->0, v))
    &&& !legacy_input(before) ==> lookup(after, key_input_dir()) == lookup(before, key_input_dir())
        && lookup(after, key_input_sources()) == lookup(before, key_input_sources())
    &&& forall|k: Seq<char>|
        #![trigger is_default_key(k)]
        is_default_key(k) ==> if lookup(before, k) is Some {
            lookup(after, k) == lookup(before, k)
        } else {
            lookup(after, k) matches Some(v) && default_holds(k, v)
        }
    &&& match lookup(before, key_resize_mode()) {
        Some(x) => if is_str(x, "fillCrop"@) {
            lookup(after, key_resize_mode()) matches Some(v) && is_str(v, "fixedCrop"@)
        } else {
            lookup(after, key_resize_mode()) == Some(x)
        },
        None => lookup(after, key_resize_mode()) matches Some(v) && is_str(v, "fitLongestSide"@),
    }
    &&& forall|q: Seq<char>|
        #![trigger lookup(after, q)]
        q != key_input_sources() && q != key_input_dir() && q != key_resize_mode()
            && !is_default_key(q) ==> lookup(after, q) == lookup(before, q)
}

/// The keys an object may hold for migration: each at most once.
pub open spec fn well_formed_json(v: JsonValue) -> bool {
    v matches JsonValue::Object(e) ==> keys_unique(e@)
}

fn insert_default(e: &mut Vec<(String, JsonValue)>, key: &str, value: JsonValue)
    requires
        keys_unique(old(e)@),
    ensures
        keys_unique(final(e)@),
        forall|q: Seq<char>|
            #![trigger lookup(final(e)@, q)]
            lookup(final(e)@, q) == if q == key@ && lookup(old(e)@, key@) is None {
                Some(value)
            } else {
                lookup(old(e)@, q)
            },
{
    let k = owned(key);
    match find_key(e, &k) {
        Some(i) => {
            proof {
                assert(e@[i as int].0@ == key@);
                assert(has_key(e@, key@));
            }
        },
        None => {
            object_insert(e, k, value);
        },
    }
}

proof fn lemma_keys_distinct()
    ensures
        forall|k: Seq<char>|
            #![trigger is_default_key(k)]
            is_default_key(k) ==> k != key_input_sources() && k != key_input_dir() && k
                != key_resize_mode(),
        key_input_sources() != key_input_dir(),
        key_input_sources() != key_resize_mode(),
        key_input_dir() != key_resize_mode(),
        "fitLongestSide"@ != "fillCrop"@,
        "fixedCrop"@ != "fillCrop"@,
{
    reveal_strlit("inputSources");
    reveal_strlit("inputDir");
    reveal_strlit("resizeMode");
    reveal_strlit("width");
    reveal_strlit("height");
    reveal_strlit("allowUpscale");
    reveal_strlit("cropHorizontal");
    reveal_strlit("cropVertical");
    reveal_strlit("rotation");
    reveal_strlit("thumbnail");
    reveal_strlit("fitLongestSide");
    reveal_strlit("fillCrop");
    reveal_strlit("fixedCrop");
    assert("fixedCrop"@.len() == 9);
    assert("inputSources"@.len() == 12);
    assert("inputDir"@.len() == 8);
    assert("resizeMode"@.len() == 10);
    assert("width"@.len() == 5);
    assert("height"@.len() == 6);
    assert("allowUpscale"@.len() == 12);
    assert("cropHorizontal"@.len() == 14);
    assert("cropVertical"@.len() == 12);
    assert("rotation"@.len() == 8);
    assert("thumbnail"@.len() == 9);
    assert("fitLongestSide"@.len() == 14);
    assert("fillCrop"@.len() == 8);
    assert("inputSources"@[0] != "allowUpscale"@[0]);
    assert("inputSources"@[0] != "cropVertical"@[0]);
    assert("inputDir"@[0] != "rotation"@[0]);
}

/// Gives every absent option its default value.
fn apply_defaults(e: &mut Vec<(String, JsonValue)>)
    requires
        keys_unique(old(e)@),
    ensures
        defaults_applied(old(e)@, final(e)@),
{
    let ghost d0 = e@;
    insert_default(e, "resizeMode", JsonValue::Str(owned("fitLongestSide")));
    let ghost d1 = e@;
    insert_default(e, "width", JsonValue::Number(owned("2000")));
    let ghost d2 = e@;
    insert_default(e, "height", JsonValue::Number(owned("2000")));
    let ghost d3 = e@;
    insert_default(e, "allowUpscale", JsonValue::Bool(false));
    let ghost d4 = e@;
    insert_default(e, "cropHorizontal", JsonValue::Str(owned("center")));
    let ghost d5 = e@;
    insert_default(e, "cropVertical", JsonValue::Str(owned("center")));
    let ghost d6 = e@;
    insert_default(e, "rotation", JsonValue::Str(owned("auto")));
    let ghost d7 = e@;
    insert_default(e, "thumbnail", JsonValue::Bool(false));
    proof {
        reveal_strlit("resizeMode");
        reveal_strlit("width");
        reveal_strlit("height");
        reveal_strlit("allowUpscale");
        reveal_strlit("cropHorizontal");
        reveal_strlit("cropVertical");
        reveal_strlit("rotation");
        reveal_strlit("thumbnail");
        assert forall|q: Seq<char>| #![trigger lookup(e@, q)]
            if q == key_resize_mode() && lookup(d0, q) is None {
                lookup(e@, q) matches Some(v) && is_str(v, "fitLongestSide"@)
            } else if is_default_key(q) && lookup(d0, q) is None {
                lookup(e@, q) matches Some(v) && default_holds(q, v)
            } else {
                lookup(e@, q) == lookup(d0, q)
            } by {
            assert(lookup(d1, q) == lookup(d0, q) || q == "resizeMode"@);
            assert(lookup(d2, q) == lookup(d1, q) || q == "width"@);
            assert(lookup(d3, q) == lookup(d2, q) || q == "height"@);
            assert(lookup(d4, q) == lookup(d3, q) || q == "allowUpscale"@);
            assert(lookup(d5, q) == lookup(d4, q) || q == "cropHorizontal"@);
            assert(lookup(d6, q) == lookup(d5, q) || q == "cropVertical"@);
            assert(lookup(d7, q) == lookup(d6, q) || q == "rotation"@);
            assert(lookup(e@, q) == lookup(d7, q) || q == "thumbnail"@);
        }
    }
}

/// Brings a saved settings value to the current shape; values other than objects are returned
/// as they are.
pub fn migrate_settings_value(value: JsonValue) -> (r: JsonValue)
    requires
        well_formed_json(value),
    ensures
        match value {
            JsonValue::Object(e) => r matches JsonValue::Object(f) && migrated(e@, f@),
            _ => r == value,
        },
{
    let mut e = match value {
        JsonValue::Object(e) => e,
        other => {
            return other;
        },
    };
    let ghost s0 = e@;
    let sources_key = owned("inputSources");
    let dir_key = owned("inputDir");
    if find_key(&e, &sources_key).is_none() {
        let removed = object_remove(&mut e, &dir_key);
        match removed {
            Some(dir) => {
                let ghost dir_value = dir;
                let items: Vec<JsonValue> = match dir {
                    JsonValue::Str(s) => if !s.as_str().is_empty() {
                        let mut v: Vec<JsonValue> = Vec::new();
                        v.push(JsonValue::Str(s));
                        v
                    } else {
                        Vec::new()
                    },
                    _ => Vec::new(),
                };
                assert(sources_from_dir(dir_value, JsonValue::Array(items)));
                object_insert(&mut e, sources_key, JsonValue::Array(items));
            },
            None => {},
        }
    }
    let ghost s1 = e@;
    assert forall|q: Seq<char>| #![trigger lookup(s1, q)]
        q != key_input_sources() && q != key_input_dir() implies lookup(s1, q) == lookup(s0, q) by {
    }
    apply_defaults(&mut e);
    let ghost s2 = e@;
    let mode_key = owned("resizeMode");
    let fill = owned("fillCrop");
    let is_fill = match find_key(&e, &mode_key) {
        Some(i) => {
            proof {
                lemma_lookup_at(e@, i as int);
            }
            match &e[i].1 {
                JsonValue::Str(s) => *s == fill,
                _ => false,
            }
        },
        None => false,
    };
    assert(is_fill <==> (lookup(s2, key_resize_mode()) matches Some(x) && is_str(x, "fillCrop"@)));
    if is_fill {
        object_insert(&mut e, mode_key, JsonValue::Str(owned("fixedCrop")));
    }
    proof {
        lemma_keys_distinct();
        assert(lookup(e@, key_resize_mode()) == lookup(s2, key_resize_mode()) || is_fill);
        assert forall|q: Seq<char>| #![trigger lookup(e@, q)] q != key_resize_mode() implies lookup(
            e@,
            q,
        ) == lookup(s2, q) by {}
        assert forall|q: Seq<char>| #![trigger lookup(s2, q)] q != key_resize_mode() && !is_default_key(q) implies lookup(
            s2,
            q,
        ) == lookup(s1, q) by {}
        assert forall|k: Seq<char>| #![trigger is_default_key(k)] is_default_key(k) implies lookup(
            s1,
            k,
        ) == lookup(s0, k) by {
            assert(k != key_input_sources() && k != key_input_dir());
        }
        assert(lookup(s1, key_resize_mode()) == lookup(s0, key_resize_mode()));
    }
    JsonValue::Object(e)
}

/// Migration is idempotent: settings that were migrated once are left as they are by a
/// second migration.
pub proof fn lemma_migration_idempotent(
    a: Seq<(String, JsonValue)>,
    b: Seq<(String, JsonValue)>,
    c: Seq<(String, JsonValue)>,
)
    requires
        migrated(a, b),
        migrated(b, c),
    ensures
        forall|q: Seq<char>| #![trigger lookup(c, q)] lookup(c, q) == lookup(b, q),
{
    lemma_keys_distinct();
    assert(!legacy_input(b));
    assert forall|q: Seq<char>| #![trigger lookup(c, q)] lookup(c, q) == lookup(b, q) by {
        if is_default_key(q) {
            assert(lookup(b, q) is Some);
        } else if q == key_resize_mode() {
            match lookup(a, key_resize_mode()) {
                Some(x) => {},
                None => {},
            }
        }
    }
}

} // verus!
