//! The column resolver: given the header row of a sheet and the ordered list
//! of required canonical column names, find for each name the position of its
//! first case-insensitive, whitespace-trimmed match, or fail with the first
//! name that has no match.

use vstd::prelude::*;
use crate::error::IngestError;
use crate::text::{matches_name, norm_cp};

verus! {

/// Seq-of-characters view of a sequence of strings.
pub open spec fn strs_view(v: Seq<String>) -> Seq<Seq<char>> {
    v.map_values(|s: String| s@)
}

/// Whether a header cell matches a canonical name: equal normalized forms.
pub open spec fn cell_matches(cell: Seq<char>, name: Seq<char>) -> bool {
    norm_cp(cell) == norm_cp(name)
}

/// The position of the first header cell matching `name`, or `headers.len()`
/// if none does.
pub open spec fn first_match(headers: Seq<Seq<char>>, name: Seq<char>) -> int
    decreases headers.len(),
{
    if headers.len() == 0 {
        0
    } else if cell_matches(headers[0], name) {
        0
    } else {
        1 + first_match(headers.drop_first(), name)
    }
}

/// Whether some header cell matches `name`.
pub open spec fn has_match(headers: Seq<Seq<char>>, name: Seq<char>) -> bool {
    exists|j: int| 0 <= j < headers.len() && cell_matches(headers[j], name)
}

/// The first required name with no matching header cell, or `required.len()`
/// if every name resolves.
pub open spec fn first_unresolved(headers: Seq<Seq<char>>, required: Seq<Seq<char>>) -> int
    decreases required.len(),
{
    if required.len() == 0 {
        0
    } else if !has_match(headers, required[0]) {
        0
    } else {
        1 + first_unresolved(headers, required.drop_first())
    }
}

pub proof fn lemma_first_match(headers: Seq<Seq<char>>, name: Seq<char>)
    ensures
        0 <= first_match(headers, name) <= headers.len(),
        forall|j: int| 0 <= j < first_match(headers, name) ==> !cell_matches(headers[j], name),
        first_match(headers, name) < headers.len() ==> cell_matches(
            headers[first_match(headers, name)],
            name,
        ),
        has_match(headers, name) <==> first_match(headers, name) < headers.len(),
    decreases headers.len(),
{
    if headers.len() == 0 {
    } else if cell_matches(headers[0], name) {
    } else {
        lemma_first_match(headers.drop_first(), name);
        assert forall|j: int| 0 <= j < first_match(headers, name) implies !cell_matches(
            headers[j],
            name,
        ) by {
            if j > 0 {
                assert(headers.drop_first()[j - 1] == headers[j]);
            }
        }
        if first_match(headers, name) < headers.len() {
            assert(headers.drop_first()[first_match(headers, name) - 1] == headers[first_match(
                headers,
                name,
            )]);
        }
        if has_match(headers, name) {
            let j = choose|j: int|
                0 <= j < headers.len() && cell_matches(headers[j], name);
            assert(headers.drop_first()[j - 1] == headers[j]);
            assert(has_match(headers.drop_first(), name));
        }
        if has_match(headers.drop_first(), name) {
            let j = choose|j: int|
                0 <= j < headers.drop_first().len() && cell_matches(
                    headers.drop_first()[j],
                    name,
                );
            assert(headers.drop_first()[j] == headers[j + 1]);
            assert(has_match(headers, name));
        }
    }
}

pub proof fn lemma_first_unresolved(headers: Seq<Seq<char>>, required: Seq<Seq<char>>)
    ensures
        0 <= first_unresolved(headers, required) <= required.len(),
        forall|k: int|
            0 <= k < first_unresolved(headers, required) ==> has_match(headers, required[k]),
        first_unresolved(headers, required) < required.len() ==> !has_match(
            headers,
            required[first_unresolved(headers, required)],
        ),
    decreases required.len(),
{
    if required.len() == 0 {
    } else if !has_match(headers, required[0]) {
    } else {
        lemma_first_unresolved(headers, required.drop_first());
        assert forall|k: int| 0 <= k < first_unresolved(headers, required) implies has_match(
            headers,
            required[k],
        ) by {
            if k > 0 {
                assert(required.drop_first()[k - 1] == required[k]);
            }
        }
        if first_unresolved(headers, required) < required.len() {
            assert(required.drop_first()[first_unresolved(headers, required) - 1]
                == required[first_unresolved(headers, required)]);
        }
    }
}

/// Resolves each required canonical name to the position of its first
/// matching header cell. Succeeds exactly when every required name has a
/// match; otherwise fails with `MissingColumn` naming the first required name
/// without one.
pub fn resolve_columns(headers: &Vec<String>, required: &Vec<String>) -> (r: Result<
    Vec<usize>,
    IngestError,
>)
    ensures
        ({
            let hv = strs_view(headers@);
            let rv = strs_view(required@);
            match r {
                Ok(ix) => {
                    &&& ix@.len() == rv.len()
                    &&& forall|k: int| 0 <= k < rv.len() ==> has_match(hv, rv[k])
                    &&& forall|k: int|
                        0 <= k < rv.len() ==> ix@[k] as int == first_match(hv, #[trigger] rv[k])
                },
                Err(e) => {
                    &&& e matches IngestError::MissingColumn(name)
                    &&& first_unresolved(hv, rv) < rv.len()
                    &&& name@ == rv[first_unresolved(hv, rv)]
                    &&& !has_match(hv, rv[first_unresolved(hv, rv)])
                },
            }
        }),
{
    let ghost hv = strs_view(headers@);
    let ghost rv = strs_view(required@);
    let mut ix: Vec<usize> = Vec::new();
    let mut k: usize = 0;
    while k < required.len()
        invariant
            k <= required.len(),
            hv == strs_view(headers@),
            rv == strs_view(required@),
            ix@.len() == k,
            forall|m: int| 0 <= m < k ==> has_match(hv, rv[m]),
            forall|m: int| 0 <= m < k ==> ix@[m] as int == first_match(hv, #[trigger] rv[m]),
        decreases required.len() - k,
    {
        let name: &String = &required[k];
        let mut j: usize = 0;
        let mut found: bool = false;
        let mut pos: usize = 0;
        while j < headers.len()
            invariant
                j <= headers.len(),
                k < required.len(),
                hv == strs_view(headers@),
                rv == strs_view(required@),
                name@ == rv[k as int],
                !found ==> forall|m: int| 0 <= m < j ==> !cell_matches(hv[m], rv[k as int]),
                found ==> pos < headers.len() && pos as int == first_match(hv, rv[k as int]),
            decreases headers.len() - j,
        {
            if !found && matches_name(headers[j].as_str(), name.as_str()) {
                found = true;
                pos = j;
                proof {
                    lemma_first_match(hv, rv[k as int]);
                    assert(cell_matches(hv[j as int], rv[k as int]));
                    if first_match(hv, rv[k as int]) < j {
                        assert(cell_matches(hv[first_match(hv, rv[k as int])], rv[k as int]));
                        assert(false);
                    }
                    if first_match(hv, rv[k as int]) > j {
                        assert(!cell_matches(hv[j as int], rv[k as int]));
                        assert(false);
                    }
                }
            }
            j += 1;
        }
        if !found {
            proof {
                lemma_first_match(hv, rv[k as int]);
                lemma_first_unresolved(hv, rv);
                assert(!has_match(hv, rv[k as int]));
                let k0 = first_unresolved(hv, rv);
                if k0 < k {
                    assert(has_match(hv, rv[k0]));
                    assert(false);
                }
                if k0 > k {
                    assert(has_match(hv, rv[k as int]));
                    assert(false);
                }
                assert(k0 == k);
            }
            return Err(IngestError::MissingColumn(name.clone()));
        }
        proof {
            lemma_first_match(hv, rv[k as int]);
        }
        ix.push(pos);
        k += 1;
    }
    Ok(ix)
}

} // verus!
