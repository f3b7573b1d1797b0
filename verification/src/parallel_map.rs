//! Applying a function to every item of a vector, by several workers at a time.
//!
//! The workers take items from a shared stock, from the back, each together with its index, and the
//! results are put in place by that index in whatever order they arrive.

use vstd::prelude::*;

verus! {

/// Takes the last item of the stock, with its index.
pub fn take_item<T>(stock: &mut Vec<T>) -> (item: Option<(usize, T)>)
    ensures
        item is None <==> old(stock).len() == 0,
        item is None ==> final(stock)@ == old(stock)@,
        item matches Some((ix, val)) ==> {
            &&& ix == old(stock).len() - 1
            &&& val == old(stock)@[ix as int]
            &&& final(stock)@ == old(stock)@.drop_last()
        },
{
    match stock.pop() {
        None => None,
        Some(val) => Some((stock.len(), val)),
    }
}

/// The output, before any result has arrived: as many defaults as there are items.
pub fn blank_output<U: Default>(len: usize) -> (output: Vec<U>)
    ensures
        output.len() == len,
        forall|i: int|
            0 <= i < len ==> call_ensures(<U as Default>::default, (), #[trigger] output@[i]),
{
    let mut output: Vec<U> = Vec::new();
    while output.len() < len
        invariant
            output.len() <= len,
            forall|i: int|
                0 <= i < output.len() ==> call_ensures(
                    <U as Default>::default,
                    (),
                    #[trigger] output@[i],
                ),
        decreases len - output.len(),
    {
        output.push(<U as Default>::default());
    }
    output
}

/// Puts a result in its place.
pub fn put_result<U>(output: &mut Vec<U>, ix: usize, val: U)
    requires
        ix < old(output).len(),
    ensures
        final(output)@ == old(output)@.update(ix as int, val),
{
    output.set(ix, val);
}

/// The output after results have arrived.
pub open spec fn output_after<U>(blank: Seq<U>, arrivals: Seq<(usize, U)>) -> Seq<U>
    decreases arrivals.len(),
{
    if arrivals.len() == 0 {
        blank
    } else {
        let (ix, val) = arrivals.last();
        output_after(blank, arrivals.drop_last()).update(ix as int, val)
    }
}

/// The stock after `k` items have been taken.
pub open spec fn stock_after<T>(input: Seq<T>, k: nat) -> Seq<T>
    decreases k,
{
    if k == 0 {
        input
    } else {
        stock_after(input, (k - 1) as nat).drop_last()
    }
}

/// The item that is taken when `k` have been taken before, with its index.
pub open spec fn item_taken<T>(input: Seq<T>, k: nat) -> (usize, T) {
    let stock = stock_after(input, k);
    ((stock.len() - 1) as usize, stock.last())
}

/// The results for all items, in the order in which the items are taken.
pub open spec fn results<T, U>(input: Seq<T>, f: spec_fn(T) -> U) -> Seq<(usize, U)> {
    Seq::new(
        input.len(),
        |k: int| (item_taken(input, k as nat).0, f(item_taken(input, k as nat).1)),
    )
}

/// Items are taken from the back, each once and with the index that it has in the input.
pub proof fn law_items_are_taken_from_the_back<T>(input: Seq<T>, k: nat)
    requires
        k < input.len() <= usize::MAX,
    ensures
        stock_after(input, k) == input.take(input.len() - k),
        item_taken(input, k) == ((input.len() - 1 - k) as usize, input[input.len() - 1 - k]),
    decreases k,
{
    if k > 0 {
        law_items_are_taken_from_the_back(input, (k - 1) as nat);
        assert(stock_after(input, k) =~= input.take(input.len() - k));
    } else {
        assert(input.take(input.len() as int) =~= input);
    }
}

proof fn lemma_output<U>(blank: Seq<U>, arrivals: Seq<(usize, U)>, i: int, val: U)
    requires
        0 <= i < blank.len(),
        forall|k: int| 0 <= k < arrivals.len() ==> (#[trigger] arrivals[k]).0 < blank.len(),
        forall|k: int|
            0 <= k < arrivals.len() && (#[trigger] arrivals[k]).0 == i ==> arrivals[k].1 == val,
    ensures
        output_after(blank, arrivals).len() == blank.len(),
        output_after(blank, arrivals)[i] == if exists|k: int|
            0 <= k < arrivals.len() && (#[trigger] arrivals[k]).0 == i {
            val
        } else {
            blank[i]
        },
    decreases arrivals.len(),
{
    if arrivals.len() > 0 {
        let shorter = arrivals.drop_last();
        assert forall|k: int| 0 <= k < shorter.len() && (#[trigger] shorter[k]).0
            == i implies shorter[k].1 == val by {
            assert(arrivals[k] == shorter[k]);
        }
        assert forall|k: int| 0 <= k < shorter.len() implies (#[trigger] shorter[k]).0
            < blank.len() by {
            assert(arrivals[k] == shorter[k]);
        }
        lemma_output(blank, shorter, i, val);
        assert(arrivals[arrivals.len() - 1] == arrivals.last());
        if exists|k: int| 0 <= k < shorter.len() && (#[trigger] shorter[k]).0 == i {
            let k = choose|k: int| 0 <= k < shorter.len() && (#[trigger] shorter[k]).0 == i;
            assert(arrivals[k].0 == i);
        }
        if exists|k: int| 0 <= k < arrivals.len() && (#[trigger] arrivals[k]).0 == i {
            let k = choose|k: int| 0 <= k < arrivals.len() && (#[trigger] arrivals[k]).0 == i;
            if k < shorter.len() {
                assert(shorter[k].0 == i);
            }
        }
    }
}

/// When all results have arrived, in whatever order, the output is the function applied to each
/// item of the input in its place.
pub proof fn law_output_is_the_map_of_the_input<T, U>(
    input: Seq<T>,
    f: spec_fn(T) -> U,
    blank: Seq<U>,
    arrivals: Seq<(usize, U)>,
)
    requires
        input.len() <= usize::MAX,
        blank.len() == input.len(),
        arrivals.to_multiset() == results(input, f).to_multiset(),
    ensures
        output_after(blank, arrivals) == input.map_values(f),
{
    broadcast use vstd::seq_lib::group_to_multiset_ensures;

    let all = results(input, f);
    let n = input.len();
    let output = output_after(blank, arrivals);
    assert forall|k: int| 0 <= k < arrivals.len() implies (#[trigger] arrivals[k]).0
        < blank.len() by {
        assert(arrivals.contains(arrivals[k]));
        assert(arrivals.to_multiset().contains(arrivals[k]));
        assert(all.contains(arrivals[k]));
        let j = choose|j: int| 0 <= j < all.len() && all[j] == arrivals[k];
        law_items_are_taken_from_the_back(input, j as nat);
    }
    assert forall|i: int| 0 <= i < n implies output.len() == n && #[trigger] output[i] == f(
        input[i],
    ) by {
        assert forall|k: int| 0 <= k < arrivals.len() && (#[trigger] arrivals[k]).0
            == i implies arrivals[k].1 == f(input[i]) by {
            assert(arrivals.contains(arrivals[k]));
            assert(arrivals.to_multiset().contains(arrivals[k]));
            assert(all.contains(arrivals[k]));
            let j = choose|j: int| 0 <= j < all.len() && all[j] == arrivals[k];
            law_items_are_taken_from_the_back(input, j as nat);
        }
        let j = n - 1 - i;
        law_items_are_taken_from_the_back(input, j as nat);
        assert(all.contains(all[j]));
        assert(arrivals.to_multiset().contains(all[j]));
        assert(arrivals.contains(all[j]));
        let k = choose|k: int| 0 <= k < arrivals.len() && arrivals[k] == all[j];
        assert(arrivals[k].0 == i);
        lemma_output(blank, arrivals, i, f(input[i]));
    }
    if n == 0 {
        assert(arrivals.len() == 0) by {
            assert(all =~= Seq::empty());
            if arrivals.len() > 0 {
                assert(arrivals.contains(arrivals[0]));
                assert(arrivals.to_multiset().contains(arrivals[0]));
                assert(all.contains(arrivals[0]));
            }
        }
    } else {
        assert(output[0] == f(input[0]));
    }
    assert(output =~= input.map_values(f));
}

/// Without workers no result arrives, and the output stays as it was.
pub proof fn law_no_workers_leave_the_output_blank<U>(blank: Seq<U>)
    ensures
        output_after(blank, Seq::<(usize, U)>::empty()) == blank,
{
}

/// Applies `f` to every item of the input, by one worker that takes all items and puts each result
/// in its place.
pub fn map_by_one_worker<T, U: Default, F: Fn(T) -> U>(input: Vec<T>, f: F) -> (output: Vec<U>)
    requires
        forall|i: int| 0 <= i < input.len() ==> call_requires(f, (#[trigger] input@[i],)),
    ensures
        output.len() == input.len(),
        forall|i: int|
            0 <= i < input.len() ==> call_ensures(f, (input@[i],), #[trigger] output@[i]),
{
    let ghost items = input@;
    let mut stock: Vec<T> = input;
    let mut output: Vec<U> = blank_output(stock.len());
    loop
        invariant
            stock.len() <= items.len(),
            stock@ == items.take(stock.len() as int),
            output.len() == items.len(),
            forall|i: int| 0 <= i < items.len() ==> call_requires(f, (#[trigger] items[i],)),
            forall|i: int|
                stock.len() <= i < items.len() ==> call_ensures(
                    f,
                    (items[i],),
                    #[trigger] output@[i],
                ),
        ensures
            stock.len() == 0,
        decreases stock.len(),
    {
        match take_item(&mut stock) {
            None => {
                break;
            },
            Some((ix, val)) => {
                assert(val == items[ix as int]);
                let result: U = f(val);
                put_result(&mut output, ix, result);
                assert(stock@ =~= items.take(stock.len() as int));
            },
        }
    }
    output
}

} // verus!
