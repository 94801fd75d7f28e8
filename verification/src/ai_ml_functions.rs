// The native functions for data preparation, distances, metrics,
// activations, matrices and optimisation: their names, and the random split
// of data into a part for training and a part for testing. The others
// compute with floating-point numbers; the program that embeds the library
// provides them.

use crate::environment::{vals, Val, Value};
use crate::text::texts;
use rand::rngs::StdRng;
use rand::seq::SliceRandom;
use rand::SeedableRng;
use vstd::prelude::*;
use vstd::seq_lib::{to_multiset_contains, to_multiset_len};
use vstd::string::StringExecFns;

verus! {

/// The names of the native functions for data preparation, distances, metrics, activations, matrices and optimisation.
pub open spec fn ai_ml_names() -> Seq<Seq<char>> {
    seq![
        "ml_train_test_split"@,
        "ml_standardize"@,
        "ml_min_max_scale"@,
        "ml_one_hot_encode"@,
        "ml_euclidean_distance"@,
        "ml_manhattan_distance"@,
        "ml_cosine_similarity"@,
        "ml_knn_predict"@,
        "ml_kmeans"@,
        "ml_mse"@,
        "ml_mae"@,
        "ml_rmse"@,
        "ml_r2_score"@,
        "ml_accuracy"@,
        "ml_precision"@,
        "ml_recall"@,
        "ml_f1_score"@,
        "ml_confusion_matrix"@,
        "nn_tanh"@,
        "nn_leaky_relu"@,
        "nn_elu"@,
        "nn_softplus"@,
        "nn_mse_loss"@,
        "nn_binary_crossentropy"@,
        "nn_categorical_crossentropy"@,
        "nn_dropout"@,
        "nn_batch_norm"@,
        "matrix_multiply"@,
        "matrix_transpose"@,
        "matrix_add"@,
        "matrix_subtract"@,
        "matrix_identity"@,
        "matrix_determinant"@,
        "gradient_descent_step"@,
        "adam_step"@,
    ]
}

/// The names of the native functions for data preparation, distances, metrics, activations, matrices and optimisation.
pub fn get_ai_ml_functions() -> (names: Vec<String>)
    ensures
        texts(names@) == ai_ml_names(),
{
    let mut names: Vec<String> = Vec::new();
    names.push(String::from_str("ml_train_test_split"));
    names.push(String::from_str("ml_standardize"));
    names.push(String::from_str("ml_min_max_scale"));
    names.push(String::from_str("ml_one_hot_encode"));
    names.push(String::from_str("ml_euclidean_distance"));
    names.push(String::from_str("ml_manhattan_distance"));
    names.push(String::from_str("ml_cosine_similarity"));
    names.push(String::from_str("ml_knn_predict"));
    names.push(String::from_str("ml_kmeans"));
    names.push(String::from_str("ml_mse"));
    names.push(String::from_str("ml_mae"));
    names.push(String::from_str("ml_rmse"));
    names.push(String::from_str("ml_r2_score"));
    names.push(String::from_str("ml_accuracy"));
    names.push(String::from_str("ml_precision"));
    names.push(String::from_str("ml_recall"));
    names.push(String::from_str("ml_f1_score"));
    names.push(String::from_str("ml_confusion_matrix"));
    names.push(String::from_str("nn_tanh"));
    names.push(String::from_str("nn_leaky_relu"));
    names.push(String::from_str("nn_elu"));
    names.push(String::from_str("nn_softplus"));
    names.push(String::from_str("nn_mse_loss"));
    names.push(String::from_str("nn_binary_crossentropy"));
    names.push(String::from_str("nn_categorical_crossentropy"));
    names.push(String::from_str("nn_dropout"));
    names.push(String::from_str("nn_batch_norm"));
    names.push(String::from_str("matrix_multiply"));
    names.push(String::from_str("matrix_transpose"));
    names.push(String::from_str("matrix_add"));
    names.push(String::from_str("matrix_subtract"));
    names.push(String::from_str("matrix_identity"));
    names.push(String::from_str("matrix_determinant"));
    names.push(String::from_str("gradient_descent_step"));
    names.push(String::from_str("adam_step"));
    assert(texts(names@) =~= ai_ml_names());
    names
}

/// `rand::seq::SliceRandom::shuffle` puts the items of a slice into an order
/// drawn from a generator, here `StdRng::seed_from_u64(seed)`, the generator
/// that the seed gives. The slice holds the same items after it, each as
/// often as before.
#[verifier::external_body]
fn shuffle_seeded(order: &mut Vec<usize>, seed: u64)
    ensures
        final(order)@.to_multiset() == old(order)@.to_multiset(),
{
    order.shuffle(&mut StdRng::seed_from_u64(seed));
}

/// `rand::seq::SliceRandom::shuffle` puts the items of a slice into an order
/// drawn from a generator, here `StdRng::from_entropy()`, a generator that
/// the system seeds. The slice holds the same items after it, each as often
/// as before.
#[verifier::external_body]
fn shuffle_fresh(order: &mut Vec<usize>)
    ensures
        final(order)@.to_multiset() == old(order)@.to_multiset(),
{
    order.shuffle(&mut StdRng::from_entropy());
}

/// Whether `order` is an order of `count` things: it names each of the
/// indexes below `count` once.
pub open spec fn is_order(order: Seq<usize>, count: nat) -> bool {
    &&& order.len() == count
    &&& forall|i: int| 0 <= i < order.len() ==> (#[trigger] order[i]) < count
    &&& order.no_duplicates()
}

/// The indexes below `count`, from the least on.
pub open spec fn in_turn(count: nat) -> Seq<usize> {
    Seq::new(count, |i: int| i as usize)
}

/// What holds the same items as the indexes in turn is an order.
proof fn lemma_shuffled_is_order(order: Seq<usize>, count: nat)
    requires
        count <= usize::MAX,
        order.to_multiset() == in_turn(count).to_multiset(),
    ensures
        is_order(order, count),
{
    let turn = in_turn(count);
    to_multiset_len(order);
    to_multiset_len(turn);
    assert forall|i: int| 0 <= i < order.len() implies (#[trigger] order[i]) < count by {
        assert(order.contains(order[i]));
        to_multiset_contains(order, order[i]);
        to_multiset_contains(turn, order[i]);
        let j = choose|j: int| 0 <= j < turn.len() && turn[j] == order[i];
    }
    assert(turn.no_duplicates());
    turn.lemma_multiset_has_no_duplicates();
    order.lemma_multiset_has_no_duplicates_conv();
}

/// An order of `count` things, drawn at random: from the generator that
/// `seed` gives or, without a seed, from one that the system seeds.
pub fn shuffled_order(count: usize, seed: Option<u64>) -> (order: Vec<usize>)
    ensures
        is_order(order@, count as nat),
{
    let mut order: Vec<usize> = Vec::new();
    let mut i: usize = 0;
    while i < count
        invariant
            i <= count,
            order@ == in_turn(i as nat),
        decreases count - i,
    {
        order.push(i);
        i += 1;
        assert(order@ =~= in_turn(i as nat));
    }
    match seed {
        Some(seed) => shuffle_seeded(&mut order, seed),
        None => shuffle_fresh(&mut order),
    }
    proof {
        lemma_shuffled_is_order(order@, count as nat);
    }
    order
}

/// The values at the places that `order` names from index `from` up to, and
/// not including, index `to`.
pub open spec fn gather(values: Seq<Val>, order: Seq<usize>, from: int, to: int) -> Seq<Val> {
    Seq::new((to - from) as nat, |i: int| values[order[from + i] as int])
}

fn gather_of(values: &Vec<Value>, order: &Vec<usize>, from: usize, to: usize) -> (part: Value)
    requires
        from <= to <= order@.len(),
        forall|i: int| 0 <= i < order@.len() ==> (#[trigger] order@[i]) < values@.len(),
    ensures
        part@ == Val::List(gather(vals(values@), order@, from as int, to as int)),
{
    let mut items: Vec<Value> = Vec::new();
    let mut i: usize = from;
    while i < to
        invariant
            from <= i <= to <= order@.len(),
            forall|j: int| 0 <= j < order@.len() ==> (#[trigger] order@[j]) < values@.len(),
            vals(items@) == gather(vals(values@), order@, from as int, i as int),
        decreases to - i,
    {
        assert(order@[i as int] < values@.len());
        let ghost before = vals(items@);
        let item = values[order[i]].duplicate();
        let ghost added = item@;
        items.push(item);
        i += 1;
        proof {
            assert(vals(items@) =~= before.push(added));
            assert(added == vals(values@)[order@[i - 1] as int]);
            assert(before.push(added) =~= gather(vals(values@), order@, from as int, i as int));
        }
    }
    let part = Value::List(items);
    proof {
        part.lemma_list();
    }
    part
}

/// The four parts that a split of `data` and `labels` in the order `order`
/// at the place `split` gives: the data before the place and from it on,
/// then the labels before the place and from it on.
pub open spec fn split_parts(
    data: Seq<Val>,
    labels: Seq<Val>,
    order: Seq<usize>,
    split: int,
) -> Val {
    Val::List(
        seq![
            Val::List(gather(data, order, 0, split)),
            Val::List(gather(data, order, split, order.len() as int)),
            Val::List(gather(labels, order, 0, split)),
            Val::List(gather(labels, order, split, order.len() as int)),
        ],
    )
}

/// Splits `data` and `labels`, taken in the order `order`, at the place
/// `split`: the first `split` of them are for training, the others for
/// testing.
pub fn split_in_order(
    data: &Vec<Value>,
    labels: &Vec<Value>,
    order: &Vec<usize>,
    split: usize,
) -> (parts: Value)
    requires
        data@.len() == labels@.len(),
        is_order(order@, data@.len()),
        split <= data@.len(),
    ensures
        parts@ == split_parts(vals(data@), vals(labels@), order@, split as int),
{
    let count = order.len();
    let mut parts: Vec<Value> = Vec::new();
    parts.push(gather_of(data, order, 0, split));
    parts.push(gather_of(data, order, split, count));
    parts.push(gather_of(labels, order, 0, split));
    parts.push(gather_of(labels, order, split, count));
    let parts = Value::List(parts);
    proof {
        parts.lemma_list();
        assert(parts@->List_0 =~= split_parts(vals(data@), vals(labels@), order@, split as int)->List_0);
    }
    parts
}

/// Splits `data` and `labels` at random into a part for training, of
/// `split` items each, and a part for testing, of the others: the items are
/// taken in an order drawn at random, the same for the data and the labels.
pub fn train_test_split(
    data: &Vec<Value>,
    labels: &Vec<Value>,
    split: usize,
    seed: Option<u64>,
) -> (parts: Value)
    requires
        data@.len() == labels@.len(),
        split <= data@.len(),
    ensures
        exists|order: Seq<usize>|
            #[trigger] is_order(order, data@.len()) && parts@ == split_parts(
                vals(data@),
                vals(labels@),
                order,
                split as int,
            ),
{
    let order = shuffled_order(data.len(), seed);
    split_in_order(data, labels, &order, split)
}

} // verus!
