//! Finding the two coordinate columns of a table.
//!
//! Columns are chosen by name or by fixed position.  Names are compared
//! without regard to case; white space around a name in the header does not
//! count.  Where a name stands in the header more than once, its last
//! column is meant.

use vstd::prelude::*;
use crate::error::RewriteError;
use crate::text::{chars_of, lowercase, lowercase_of, text_of, trim, trimmed};

verus! {

/// How the coordinate columns of a table are chosen.
#[derive(Debug)]
pub enum ColumnSelector {
    /// By the names that the header gives the two columns.
    ByName { lat_name: String, lon_name: String },
    /// By position, whatever the header says.
    ByFixedIndex { lat: usize, lon: usize },
}

/// The positions of the two coordinate columns, counted from zero.
#[derive(Clone, Copy, Debug, PartialEq, Eq, Structural)]
pub struct ColumnIndex {
    pub lat: usize,
    pub lon: usize,
}

/// The texts that a sequence of strings holds.
pub open spec fn texts(v: Seq<String>) -> Seq<Seq<char>> {
    v.map_values(|s: String| s@)
}

/// The key under which a header name is found.
pub open spec fn normalized(name: Seq<char>) -> Seq<char> {
    lowercase_of(trim(name))
}

/// The keys of a header, column by column.
pub open spec fn header_keys(header: Seq<Seq<char>>) -> Seq<Seq<char>> {
    header.map_values(|name: Seq<char>| normalized(name))
}

/// The last position at which `key` stands among `keys`.
pub open spec fn position_of(keys: Seq<Seq<char>>, key: Seq<char>) -> Option<int>
    decreases keys.len(),
{
    if keys.len() == 0 {
        None
    } else if keys.last() == key {
        Some(keys.len() - 1)
    } else {
        position_of(keys.drop_last(), key)
    }
}

/// The first place at or after `from` in `names` that holds a name with
/// no position among `keys`.
pub open spec fn first_missing(keys: Seq<Seq<char>>, names: Seq<Seq<char>>, from: int) -> Option<
    int,
>
    decreases names.len() - from,
{
    if from < 0 || from >= names.len() {
        None
    } else if position_of(keys, lowercase_of(names[from])) is None {
        Some(from)
    } else {
        first_missing(keys, names, from + 1)
    }
}

/// The coordinate columns that `selector` chooses in a table with this
/// header: the positions of the two names, or the first of the two names
/// that the header lacks; fixed positions are taken as they are.
pub open spec fn resolved(header: Seq<Seq<char>>, selector: ColumnSelector) -> Result<
    ColumnIndex,
    Seq<char>,
> {
    match selector {
        ColumnSelector::ByName { lat_name, lon_name } => {
            let keys = header_keys(header);
            match position_of(keys, lowercase_of(lat_name@)) {
                None => Err(lat_name@),
                Some(a) => match position_of(keys, lowercase_of(lon_name@)) {
                    None => Err(lon_name@),
                    Some(b) => Ok(ColumnIndex { lat: a as usize, lon: b as usize }),
                },
            }
        },
        ColumnSelector::ByFixedIndex { lat, lon } => Ok(ColumnIndex { lat, lon }),
    }
}

/// A position that is found lies within the header and holds the key.
pub proof fn lemma_position_of(keys: Seq<Seq<char>>, key: Seq<char>)
    ensures
        match position_of(keys, key) {
            Some(p) => 0 <= p < keys.len() && keys[p] == key && forall|j: int|
                p < j < keys.len() ==> keys[j] != key,
            None => forall|j: int| 0 <= j < keys.len() ==> keys[j] != key,
        },
    decreases keys.len(),
{
    if keys.len() > 0 && keys.last() != key {
        let init = keys.drop_last();
        lemma_position_of(init, key);
        assert forall|j: int| 0 <= j < init.len() implies init[j] == keys[j] by {}
    }
}

/// The key of one header name.
fn normalize(name: &str) -> (r: String)
    ensures
        r@ == normalized(name@),
{
    let chars = chars_of(name);
    let t = trimmed(&chars);
    let s = text_of(&t);
    lowercase(s.as_str())
}

/// The keys of a header, made once for all the look-ups in it.
pub fn header_keys_of(headers: &Vec<String>) -> (keys: Vec<String>)
    ensures
        texts(keys@) == header_keys(texts(headers@)),
{
    let mut keys: Vec<String> = Vec::new();
    let mut i: usize = 0;
    while i < headers.len()
        invariant
            i <= headers.len(),
            keys.len() == i,
            forall|j: int| 0 <= j < i ==> (#[trigger] keys@[j])@ == normalized(headers@[j]@),
        decreases headers.len() - i,
    {
        let key = normalize(headers[i].as_str());
        keys.push(key);
        i += 1;
    }
    assert(texts(keys@) =~= header_keys(texts(headers@)));
    keys
}

/// The last position of `key` among `keys`.
pub fn lookup(keys: &Vec<String>, key: &String) -> (r: Option<usize>)
    ensures
        match r {
            Some(p) => position_of(texts(keys@), key@) == Some(p as int),
            None => position_of(texts(keys@), key@) is None,
        },
{
    let mut i: usize = keys.len();
    proof {
        assert(texts(keys@).take(keys.len() as int) =~= texts(keys@));
    }
    while i > 0
        invariant
            i <= keys.len(),
            position_of(texts(keys@), key@) == position_of(texts(keys@).take(i as int), key@),
        decreases i,
    {
        i -= 1;
        proof {
            let before = texts(keys@).take(i + 1);
            assert(before.last() == keys@[i as int]@);
            assert(before.drop_last() =~= texts(keys@).take(i as int));
        }
        if keys[i] == *key {
            return Some(i);
        }
    }
    None
}

/// Finds the position of each of `col_names` in the header, or fails with
/// the first of them that the header does not have.
pub fn find_column_indices(headers: &Vec<String>, col_names: &Vec<String>) -> (r: Result<
    Vec<usize>,
    RewriteError,
>)
    ensures
        match first_missing(header_keys(texts(headers@)), texts(col_names@), 0) {
            None => r matches Ok(v) && v.len() == col_names.len() && forall|i: int|
                0 <= i < col_names.len() ==> position_of(
                    header_keys(texts(headers@)),
                    lowercase_of(#[trigger] col_names@[i]@),
                ) == Some(v@[i] as int),
            Some(m) => r matches Err(RewriteError::ColumnNotFound(name)) && name@
                == col_names@[m]@,
        },
{
    let keys = header_keys_of(headers);
    let ghost all_keys = header_keys(texts(headers@));
    let ghost names = texts(col_names@);
    let mut found: Vec<usize> = Vec::new();
    let mut i: usize = 0;
    while i < col_names.len()
        invariant
            i <= col_names.len(),
            found.len() == i,
            texts(keys@) == all_keys,
            all_keys == header_keys(texts(headers@)),
            names == texts(col_names@),
            first_missing(all_keys, names, 0) == first_missing(all_keys, names, i as int),
            forall|j: int|
                0 <= j < i ==> position_of(all_keys, lowercase_of(#[trigger] col_names@[j]@))
                    == Some(found@[j] as int),
        decreases col_names.len() - i,
    {
        assert(names[i as int] == col_names@[i as int]@);
        let key = lowercase(col_names[i].as_str());
        match lookup(&keys, &key) {
            Some(p) => {
                found.push(p);
            },
            None => {
                return Err(RewriteError::ColumnNotFound(col_names[i].clone()));
            },
        }
        i += 1;
    }
    Ok(found)
}

/// Resolves the coordinate columns of a table from its header.
pub fn resolve_columns(header: &Vec<String>, selector: &ColumnSelector) -> (r: Result<
    ColumnIndex,
    RewriteError,
>)
    ensures
        match resolved(texts(header@), *selector) {
            Ok(idx) => r == Ok::<ColumnIndex, RewriteError>(idx),
            Err(missing) => r matches Err(RewriteError::ColumnNotFound(name)) && name@ == missing,
        },
        selector is ByName ==> (r matches Ok(idx) ==> idx.lat < header.len() && idx.lon
            < header.len()),
{
    match selector {
        ColumnSelector::ByName { lat_name, lon_name } => {
            let mut names: Vec<String> = Vec::new();
            names.push(lat_name.clone());
            names.push(lon_name.clone());
            proof {
                let keys = header_keys(texts(header@));
                let ns = texts(names@);
                assert(ns[0] == lat_name@ && names@[0]@ == lat_name@);
                assert(ns[1] == lon_name@ && names@[1]@ == lon_name@);
                assert(first_missing(keys, ns, 2) is None);
                assert(first_missing(keys, ns, 1) == if position_of(keys, lowercase_of(lon_name@))
                    is None {
                    Some(1int)
                } else {
                    None
                });
                lemma_position_of(keys, lowercase_of(lat_name@));
                lemma_position_of(keys, lowercase_of(lon_name@));
            }
            match find_column_indices(header, &names) {
                Ok(found) => Ok(ColumnIndex { lat: found[0], lon: found[1] }),
                Err(e) => Err(e),
            }
        },
        ColumnSelector::ByFixedIndex { lat, lon } => Ok(ColumnIndex { lat: *lat, lon: *lon }),
    }
}

} // verus!
