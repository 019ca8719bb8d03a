use chroma_detect::ranking::{arrange, rank_descending};

#[test]
fn ranks_by_descending_key() {
    assert_eq!(rank_descending(&vec![5, 9, 1, 7]), vec![1, 3, 0, 2]);
    assert_eq!(rank_descending(&vec![]), Vec::<usize>::new());
    assert_eq!(rank_descending(&vec![3]), vec![0]);
}

#[test]
fn equal_keys_keep_their_order() {
    assert_eq!(rank_descending(&vec![2, 8, 2, 8, 2]), vec![1, 3, 0, 2, 4]);
    assert_eq!(rank_descending(&vec![4, 4, 4]), vec![0, 1, 2]);
}

#[test]
fn arranges_items_by_their_rank() {
    let items = vec!['a', 'b', 'c', 'd'];
    let order = rank_descending(&vec![5, 9, 1, 7]);
    assert_eq!(arrange(&items, &order), vec!['b', 'd', 'a', 'c']);
}
