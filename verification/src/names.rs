//! Which label names a labeled metric can have.

use vstd::prelude::*;
use crate::escape;
use crate::text;

verus! {

/// Why a list of label names is refused.
#[derive(Debug, Clone, Copy, PartialEq, Eq)]
pub enum LabelNamesError {
    /// A histogram vector has no label.
    NoLabels,
    /// A name is not a valid Prometheus label name.
    InvalidName,
    /// A histogram label has the name `le`, which is reserved for generated
    /// bucket labels.
    Reserved,
    /// A name occurs twice.
    Duplicate,
}

/// What is wrong with the name at index `i`, if anything.
pub open spec fn name_fault(names: Seq<Seq<char>>, histogram: bool, i: int) -> Option<
    LabelNamesError,
> {
    if !escape::label_name_ok(names[i]) {
        Some(LabelNamesError::InvalidName)
    } else if histogram && names[i] == "le"@ {
        Some(LabelNamesError::Reserved)
    } else if names.take(i).contains(names[i]) {
        Some(LabelNamesError::Duplicate)
    } else {
        None
    }
}

/// The first thing wrong with the names from index `i` on, if anything.
pub open spec fn names_fault_from(names: Seq<Seq<char>>, histogram: bool, i: int) -> Option<
    LabelNamesError,
>
    decreases names.len() - i,
{
    if i >= names.len() {
        None
    } else {
        match name_fault(names, histogram, i) {
            Some(fault) => Some(fault),
            None => names_fault_from(names, histogram, i + 1),
        }
    }
}

/// The first thing wrong with a list of label names, if anything.
pub open spec fn names_fault(names: Seq<Seq<char>>, histogram: bool) -> Option<LabelNamesError> {
    if histogram && names.len() == 0 {
        Some(LabelNamesError::NoLabels)
    } else {
        names_fault_from(names, histogram, 0)
    }
}

/// Names without a fault are valid, distinct and, for a histogram, at least
/// one and none of them `le`; and names with a fault are not.
pub proof fn law_names_without_fault(names: Seq<Seq<char>>, histogram: bool)
    ensures
        names_fault(names, histogram) is None <==> {
            &&& forall|i: int| 0 <= i < names.len() ==> escape::label_name_ok(#[trigger] names[i])
            &&& names.no_duplicates()
            &&& histogram ==> names.len() > 0 && !names.contains("le"@)
        },
{
    lemma_names_without_fault_from(names, histogram, 0);
    if names_fault_from(names, histogram, 0) is None {
        assert forall|i: int, j: int| 0 <= i < names.len() && 0 <= j < names.len() && i
            != j implies names[i] != names[j] by {
            let low = if i < j {
                i
            } else {
                j
            };
            let high = if i < j {
                j
            } else {
                i
            };
            assert(name_fault(names, histogram, high) is None);
            assert(names.take(high)[low] == names[low]);
        }
        assert forall|i: int| 0 <= i < names.len() implies escape::label_name_ok(
            #[trigger] names[i],
        ) && (histogram ==> names[i] != "le"@) by {
            assert(name_fault(names, histogram, i) is None);
        }
    } else {
        let i = choose|i: int|
            0 <= i < names.len() && #[trigger] name_fault(names, histogram, i) is Some;
        if names.take(i).contains(names[i]) {
            let j = choose|j: int| 0 <= j < i && names.take(i)[j] == names[i];
            assert(names[j] == names[i]);
        }
        assert(names.contains(names[i]));
    }
}

proof fn lemma_names_without_fault_from(names: Seq<Seq<char>>, histogram: bool, k: int)
    requires
        0 <= k <= names.len(),
    ensures
        names_fault_from(names, histogram, k) is None <==> forall|i: int|
            k <= i < names.len() ==> #[trigger] name_fault(names, histogram, i) is None,
    decreases names.len() - k,
{
    if k < names.len() {
        lemma_names_without_fault_from(names, histogram, k + 1);
        if names_fault_from(names, histogram, k) is None {
            assert forall|i: int| k <= i < names.len() implies #[trigger] name_fault(
                names,
                histogram,
                i,
            ) is None by {}
        } else {
            assert(!(name_fault(names, histogram, k) is None && names_fault_from(
                names,
                histogram,
                k + 1,
            ) is None));
        }
    }
}

/// Check the label names of a collection: see [`LabelNamesError`] for what is
/// refused. A collection's constructor asks for names without a fault.
pub fn validate_label_names<const K: usize>(
    names: &'static [&'static str; K],
    histogram: bool,
) -> (r: Result<(), LabelNamesError>)
    ensures
        r == (match names_fault(text::strs_view(names@), histogram) {
            Some(fault) => Err::<(), _>(fault),
            None => Ok(()),
        }),
{
    let ghost n = text::strs_view(names@);
    if histogram && K == 0 {
        return Err(LabelNamesError::NoLabels);
    }
    let mut i: usize = 0;
    while i < K
        invariant
            i <= K,
            n == text::strs_view(names@),
            n.len() == K,
            histogram ==> K > 0,
            names_fault(n, histogram) == names_fault_from(n, histogram, i as int),
        decreases K - i,
    {
        if !escape::valid_label_name(names[i]) {
            return Err(LabelNamesError::InvalidName);
        }
        if histogram && text::str_eq(names[i], "le") {
            return Err(LabelNamesError::Reserved);
        }
        let mut j: usize = 0;
        while j < i
            invariant
                j <= i,
                i < K,
                n == text::strs_view(names@),
                n.len() == K,
                names_fault(n, histogram) == names_fault_from(n, histogram, i as int),
                escape::label_name_ok(n[i as int]),
                !(histogram && n[i as int] == "le"@),
                forall|k: int| 0 <= k < j ==> n[k] != n[i as int],
            decreases i - j,
        {
            if text::str_eq(names[i], names[j]) {
                assert(n.take(i as int)[j as int] == n[i as int]);
                return Err(LabelNamesError::Duplicate);
            }
            j = j + 1;
        }
        i = i + 1;
    }
    Ok(())
}

/// Label names are checked one after the other, and the first thing wrong with
/// the first faulty one is reported: that it is no valid label name, that it is
/// `le` in a histogram, or that it stood before. A histogram needs a label.
pub proof fn law_label_names_are_checked<const K: usize>()
    ensures
        forall|names: &'static [&'static str; K], histogram: bool, r: Result<(), LabelNamesError>|
            #[trigger]
            call_ensures(validate_label_names::<K>, (names, histogram), r) ==> {
                let n = Seq::new(K as nat, |i: int| names@[i]@);
                &&& histogram && K == 0 <==> r == Err::<(), _>(LabelNamesError::NoLabels)
                &&& r is Ok ==> forall|i: int|
                    0 <= i < K ==> escape::label_name_ok(#[trigger] n[i])
                &&& r is Ok ==> forall|i: int, j: int| 0 <= i < j < K ==> n[i] != n[j]
                &&& r is Ok && histogram ==> forall|i: int|
                    0 <= i < K ==> #[trigger] n[i] != "le"@
                &&& r matches Err(e) ==> e != LabelNamesError::NoLabels ==> exists|i: int|
                    {
                        &&& 0 <= i < K
                        &&& forall|j: int|
                            0 <= j < i ==> escape::label_name_ok(#[trigger] n[j]) && !(histogram
                                && n[j] == "le"@)
                        &&& forall|j: int, k: int| 0 <= j < k < i ==> n[j] != n[k]
                        &&& e == if !escape::label_name_ok(#[trigger] n[i]) {
                            LabelNamesError::InvalidName
                        } else if histogram && n[i] == "le"@ {
                            LabelNamesError::Reserved
                        } else {
                            LabelNamesError::Duplicate
                        }
                        &&& e == LabelNamesError::Duplicate ==> exists|j: int|
                            0 <= j < i && #[trigger] n[j] == n[i]
                    }
            },
{
    assert forall|
        names: &'static [&'static str; K],
        histogram: bool,
        r: Result<(), LabelNamesError>,
    | #[trigger] call_ensures(validate_label_names::<K>, (names, histogram), r) implies {
        let n = Seq::new(K as nat, |i: int| names@[i]@);
        &&& histogram && K == 0 <==> r == Err::<(), _>(LabelNamesError::NoLabels)
        &&& r is Ok ==> forall|i: int| 0 <= i < K ==> escape::label_name_ok(#[trigger] n[i])
        &&& r is Ok ==> forall|i: int, j: int| 0 <= i < j < K ==> n[i] != n[j]
        &&& r is Ok && histogram ==> forall|i: int| 0 <= i < K ==> #[trigger] n[i] != "le"@
        &&& r matches Err(e) ==> e != LabelNamesError::NoLabels ==> exists|i: int|
            {
                &&& 0 <= i < K
                &&& forall|j: int|
                    0 <= j < i ==> escape::label_name_ok(#[trigger] n[j]) && !(histogram && n[j]
                        == "le"@)
                &&& forall|j: int, k: int| 0 <= j < k < i ==> n[j] != n[k]
                &&& e == if !escape::label_name_ok(#[trigger] n[i]) {
                    LabelNamesError::InvalidName
                } else if histogram && n[i] == "le"@ {
                    LabelNamesError::Reserved
                } else {
                    LabelNamesError::Duplicate
                }
                &&& e == LabelNamesError::Duplicate ==> exists|j: int|
                    0 <= j < i && #[trigger] n[j] == n[i]
            }
    } by {
        let n = Seq::new(K as nat, |i: int| names@[i]@);
        assert(text::strs_view(names@) =~= n);
        lemma_first_fault(n, histogram, 0);
        law_names_without_fault(n, histogram);
        if r is Ok && histogram {
            assert forall|i: int| 0 <= i < K implies #[trigger] n[i] != "le"@ by {
                assert(n.contains(n[i]));
            }
        }
    }
}

/// The fault of a list of names is that of the first name that has one.
proof fn lemma_first_fault(n: Seq<Seq<char>>, histogram: bool, k: int)
    requires
        0 <= k <= n.len(),
        forall|j: int|
            0 <= j < k ==> escape::label_name_ok(#[trigger] n[j]) && !(histogram && n[j]
                == "le"@),
        forall|i: int, j: int| 0 <= i < j < k ==> n[i] != n[j],
    ensures
        names_fault_from(n, histogram, k) != Some(LabelNamesError::NoLabels),
        names_fault_from(n, histogram, k) matches Some(e) ==> exists|i: int|
            {
                &&& 0 <= i < n.len()
                &&& forall|j: int|
                    0 <= j < i ==> escape::label_name_ok(#[trigger] n[j]) && !(histogram && n[j]
                        == "le"@)
                &&& forall|j: int, k: int| 0 <= j < k < i ==> n[j] != n[k]
                &&& e == if !escape::label_name_ok(#[trigger] n[i]) {
                    LabelNamesError::InvalidName
                } else if histogram && n[i] == "le"@ {
                    LabelNamesError::Reserved
                } else {
                    LabelNamesError::Duplicate
                }
                &&& e == LabelNamesError::Duplicate ==> exists|j: int|
                    0 <= j < i && #[trigger] n[j] == n[i]
            },
    decreases n.len() - k,
{
    if k < n.len() {
        match name_fault(n, histogram, k) {
            None => {
                assert forall|i: int, j: int| 0 <= i < j < k + 1 implies n[i] != n[j] by {
                    if j == k {
                        assert(n.take(k)[i] == n[i]);
                    }
                }
                lemma_first_fault(n, histogram, k + 1);
            },
            Some(e) => {
                if e == LabelNamesError::Duplicate {
                    let j = choose|j: int| 0 <= j < k && n.take(k)[j] == n[k];
                    assert(n[j] == n[k]);
                }
                assert(n[k] == n[k]);
            },
        }
    }
}

} // verus!
