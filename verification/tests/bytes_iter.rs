use bytestring::bytes_iter::{BytesIter, BytesIterMut, Index};

fn collect_front(mut it: BytesIter) -> Vec<u8> {
    let mut out: Vec<u8> = Vec::new();
    while let Some(b) = it.next() {
        out.push(b);
    }
    out
}

fn collect_back(mut it: BytesIter) -> Vec<u8> {
    let mut out: Vec<u8> = Vec::new();
    while let Some(b) = it.next_back() {
        out.push(b);
    }
    out
}

fn collect_front_mut(mut it: BytesIterMut) -> Vec<u8> {
    let mut out: Vec<u8> = Vec::new();
    while let Some(b) = it.next() {
        out.push(b);
    }
    out
}

fn collect_back_mut(mut it: BytesIterMut) -> Vec<u8> {
    let mut out: Vec<u8> = Vec::new();
    while let Some(b) = it.next_back() {
        out.push(b);
    }
    out
}

#[test]
fn test_iter_len() {
    let a = [1u8, 2, 3, 4];
    let mut it = BytesIter::new(&a, false);

    assert_eq!(it.len(), 4);

    it.next();
    assert_eq!(it.len(), 3);

    it.next();
    it.next();
    assert_eq!(it.len(), 1);

    it.next();
    assert_eq!(it.len(), 0);
}

#[test]
fn test_iter_mut_len() {
    let a = vec![1u8, 2, 3, 4];
    let mut it = BytesIterMut::new(a, false);

    assert_eq!(it.len(), 4);

    it.next();
    assert_eq!(it.len(), 3);

    it.next();
    it.next();
    assert_eq!(it.len(), 1);

    it.next();
    assert_eq!(it.len(), 0);
}

#[test]
fn test_iter_rev() {
    let a = [1u8, 2, 3, 4];
    let b = a.clone();

    let it = BytesIter::new(&a, false);
    let mut expected = b.to_vec();
    expected.reverse();
    assert_eq!(collect_back(it), expected);
}

#[test]
fn test_iter_mut_rev() {
    let a = vec![1u8, 2, 3, 4];
    let b = a.clone();

    let it = BytesIterMut::new(a, false);
    let mut expected = b;
    expected.reverse();
    assert_eq!(collect_back_mut(it), expected);
}

#[test]
fn test_iter_be_as_be() {
    let a = [1u8, 2, 3, 4];
    let b = a.clone();

    let it = BytesIter::new(&a, false);
    assert_eq!(collect_front(it), b.to_vec());
}

#[test]
fn test_iter_be_as_le() {
    let a = [1u8, 2, 3, 4];
    let b = a.clone();

    let it = BytesIter::new(&a, true);
    let mut expected = b.to_vec();
    expected.reverse();
    assert_eq!(collect_front(it), expected);
}

#[test]
fn test_iter_mut_be_as_be() {
    let a = vec![1u8, 2, 3, 4];
    let b = a.clone();

    let it = BytesIterMut::new(a, false);
    assert_eq!(collect_front_mut(it), b);
}

#[test]
fn test_iter_mut_be_as_le() {
    let a = vec![1u8, 2, 3, 4];
    let b = a.clone();

    let it = BytesIterMut::new(a, true);
    let mut expected = b;
    expected.reverse();
    assert_eq!(collect_front_mut(it), expected);
}

#[test]
fn test_index_both_ends() {
    let mut ix = Index::new_iter(0..3);
    assert_eq!(ix.size_hint(), (3, Some(3)));
    assert_eq!(ix.next(), Some(0));
    assert_eq!(ix.next_back(), Some(2));
    assert_eq!(ix.size_hint(), (1, Some(1)));
    assert_eq!(ix.next(), Some(1));
    assert_eq!(ix.next(), None);
    assert_eq!(ix.next_back(), None);
    assert_eq!(ix.size_hint(), (0, Some(0)));
}

#[test]
fn test_rev_index_both_ends() {
    let mut ix = Index::new_rev_iter(0..3);
    assert_eq!(ix.size_hint(), (3, Some(3)));
    assert_eq!(ix.next(), Some(2));
    assert_eq!(ix.next_back(), Some(0));
    assert_eq!(ix.size_hint(), (1, Some(1)));
    assert_eq!(ix.next(), Some(1));
    assert_eq!(ix.next(), None);
    assert_eq!(ix.next_back(), None);
    assert_eq!(ix.size_hint(), (0, Some(0)));
}

#[test]
fn test_iter_len_from_both_ends() {
    let a = [1u8, 2, 3, 4];
    let mut it = BytesIter::new(&a, false);

    assert_eq!(it.len(), 4);
    assert_eq!(it.next(), Some(1));
    assert_eq!(it.len(), 3);
    assert_eq!(it.next_back(), Some(4));
    assert_eq!(it.len(), 2);
    assert_eq!(it.next_back(), Some(3));
    assert_eq!(it.len(), 1);
    assert_eq!(it.next(), Some(2));
    assert_eq!(it.len(), 0);
    assert_eq!(it.next(), None);
    assert_eq!(it.len(), 0);
}

#[test]
fn test_iter_mut_write_both_ends() {
    let a = vec![1u8, 2, 3, 4];
    let mut it = BytesIterMut::new(a, false);

    assert_eq!(it.write_next(10), Some(1));
    assert_eq!(it.write_next_back(40), Some(4));
    assert_eq!(it.len(), 2);
    assert_eq!(it.next(), Some(2));
    assert_eq!(it.write_next(30), Some(3));
    assert_eq!(it.write_next(99), None);
    assert_eq!(it.into_bytes(), vec![10u8, 2, 30, 40]);
}
