use vstd::prelude::*;

verus! {

/// Row `i` holds a value in both columns.
pub open spec fn present_in_both<A, B>(left: Seq<Option<A>>, right: Seq<Option<B>>, i: int) -> bool {
    &&& 0 <= i < left.len()
    &&& i < right.len()
    &&& left[i] is Some
    &&& right[i] is Some
}

/// `rows` lists, in strictly increasing order, exactly the rows that hold a
/// value in both columns.
pub open spec fn is_join<A, B>(left: Seq<Option<A>>, right: Seq<Option<B>>, rows: Seq<usize>) -> bool {
    &&& forall|j: int| 0 <= j < rows.len() ==> present_in_both(left, right, #[trigger] rows[j] as int)
    &&& forall|j1: int, j2: int| 0 <= j1 < j2 < rows.len() ==> #[trigger] rows[j1] < #[trigger] rows[j2]
    &&& forall|i: int|
        #![trigger present_in_both(left, right, i)]
        present_in_both(left, right, i) ==> exists|j: int| 0 <= j < rows.len() && rows[j] as int == i
}

/// The join of two columns: the entity ids whose slots hold a value in both,
/// in increasing order. Pair `left[r]` with `right[r]` for each id `r`.
pub fn join_rows<A, B>(left: &Vec<Option<A>>, right: &Vec<Option<B>>) -> (rows: Vec<usize>)
    ensures
        is_join(left@, right@, rows@),
{
    let n: usize = if left.len() < right.len() { left.len() } else { right.len() };
    let mut rows: Vec<usize> = Vec::new();
    let mut i: usize = 0;
    while i < n
        invariant
            n <= left@.len(),
            n <= right@.len(),
            n == left@.len() || n == right@.len(),
            i <= n,
            forall|j: int| 0 <= j < rows@.len() ==> #[trigger] rows@[j] < i,
            forall|j: int| 0 <= j < rows@.len() ==> present_in_both(left@, right@, #[trigger] rows@[j] as int),
            forall|j1: int, j2: int| 0 <= j1 < j2 < rows@.len() ==> #[trigger] rows@[j1] < #[trigger] rows@[j2],
            forall|k: int|
                #![trigger present_in_both(left@, right@, k)]
                0 <= k < i && present_in_both(left@, right@, k) ==> exists|j: int| 0 <= j < rows@.len() && rows@[j] as int == k,
        decreases n - i,
    {
        if left[i].is_some() && right[i].is_some() {
            let ghost before = rows@;
            rows.push(i);
            assert forall|k: int|
                #![trigger present_in_both(left@, right@, k)]
                0 <= k < i && present_in_both(left@, right@, k) implies exists|j: int| 0 <= j < rows@.len() && rows@[j] as int == k by {
                let j = choose|j: int| 0 <= j < before.len() && before[j] as int == k;
                assert(rows@[j] == before[j]);
            }
            assert(rows@[rows@.len() - 1] as int == i as int);
        }
        i += 1;
    }
    rows
}

} // verus!
