//! The order of texts by their UTF-8 bytes, and sorting by name.

use vstd::prelude::*;

verus! {

/// Lexicographic order of byte sequences.
pub open spec fn bytes_le(left: Seq<u8>, right: Seq<u8>) -> bool
    decreases left.len(),
{
    if left.len() == 0 {
        true
    } else if right.len() == 0 {
        false
    } else if left[0] != right[0] {
        left[0] < right[0]
    } else {
        bytes_le(left.skip(1), right.skip(1))
    }
}

/// Lexicographic order of texts by their UTF-8 bytes.
pub open spec fn text_le(left: Seq<char>, right: Seq<char>) -> bool {
    bytes_le(vstd::utf8::encode_utf8(left), vstd::utf8::encode_utf8(right))
}

proof fn lemma_bytes_le_reflexive(bytes: Seq<u8>)
    ensures
        bytes_le(bytes, bytes),
    decreases bytes.len(),
{
    if bytes.len() > 0 {
        lemma_bytes_le_reflexive(bytes.skip(1));
    }
}

proof fn lemma_bytes_le_total(left: Seq<u8>, right: Seq<u8>)
    ensures
        bytes_le(left, right) || bytes_le(right, left),
    decreases left.len(),
{
    if left.len() > 0 && right.len() > 0 {
        lemma_bytes_le_total(left.skip(1), right.skip(1));
    }
}

proof fn lemma_bytes_le_antisymmetric(left: Seq<u8>, right: Seq<u8>)
    requires
        bytes_le(left, right),
        bytes_le(right, left),
    ensures
        left == right,
    decreases left.len(),
{
    if left.len() > 0 && right.len() > 0 {
        lemma_bytes_le_antisymmetric(left.skip(1), right.skip(1));
        assert(left == seq![left[0]] + left.skip(1));
        assert(right == seq![right[0]] + right.skip(1));
    } else {
        assert(left == right);
    }
}

proof fn lemma_bytes_le_transitive(a: Seq<u8>, b: Seq<u8>, c: Seq<u8>)
    requires
        bytes_le(a, b),
        bytes_le(b, c),
    ensures
        bytes_le(a, c),
    decreases a.len(),
{
    if a.len() > 0 && b.len() > 0 && c.len() > 0 && a[0] == b[0] && b[0] == c[0] {
        lemma_bytes_le_transitive(a.skip(1), b.skip(1), c.skip(1));
    }
}

/// The order of texts is total: any two texts are ordered, one way only unless
/// they are the same.
pub proof fn lemma_text_order_is_total()
    ensures
        vstd::relations::total_ordering(|left: Seq<char>, right: Seq<char>| text_le(left, right)),
{
    broadcast use vstd::utf8::encode_utf8_decode_utf8;

    let leq = |left: Seq<char>, right: Seq<char>| text_le(left, right);
    assert forall|x: Seq<char>| #[trigger] leq(x, x) by {
        lemma_bytes_le_reflexive(vstd::utf8::encode_utf8(x));
    }
    assert forall|x: Seq<char>, y: Seq<char>| #[trigger]
        leq(x, y) && #[trigger] leq(y, x) implies x == y by {
        lemma_bytes_le_antisymmetric(vstd::utf8::encode_utf8(x), vstd::utf8::encode_utf8(y));
        assert(vstd::utf8::decode_utf8(vstd::utf8::encode_utf8(x)) == x);
        assert(vstd::utf8::decode_utf8(vstd::utf8::encode_utf8(y)) == y);
    }
    assert forall|x: Seq<char>, y: Seq<char>, z: Seq<char>| #[trigger]
        leq(x, y) && #[trigger] leq(y, z) implies leq(x, z) by {
        lemma_bytes_le_transitive(
            vstd::utf8::encode_utf8(x),
            vstd::utf8::encode_utf8(y),
            vstd::utf8::encode_utf8(z),
        );
    }
    assert forall|x: Seq<char>, y: Seq<char>| #[trigger] leq(x, y) || #[trigger] leq(y, x) by {
        lemma_bytes_le_total(vstd::utf8::encode_utf8(x), vstd::utf8::encode_utf8(y));
    }
}

/// Whether `left` comes no later than `right`.
pub fn not_after(left: &str, right: &str) -> (ordered: bool)
    ensures
        ordered == text_le(left@, right@),
{
    let a = left.as_bytes();
    let b = right.as_bytes();
    let mut i: usize = 0;
    assert(a@.skip(0) == a@ && b@.skip(0) == b@);
    loop
        invariant
            i <= a@.len(),
            i <= b@.len(),
            text_le(left@, right@) == bytes_le(a@.skip(i as int), b@.skip(i as int)),
        decreases a@.len() - i,
    {
        if i == a.len() {
            return true;
        }
        if i == b.len() {
            return false;
        }
        assert(a@.skip(i as int)[0] == a@[i as int]);
        assert(b@.skip(i as int)[0] == b@[i as int]);
        if a[i] != b[i] {
            return a[i] < b[i];
        }
        assert(a@.skip(i as int).skip(1) == a@.skip(i + 1));
        assert(b@.skip(i as int).skip(1) == b@.skip(i + 1));
        i += 1;
    }
}

/// A value that is sorted by its name.
pub trait Named: Sized {
    spec fn name_text(self) -> Seq<char>;

    fn name(&self) -> (name: &str)
        ensures
            name@ == self.name_text(),
    ;
}

impl Named for String {
    open spec fn name_text(self) -> Seq<char> {
        self@
    }

    fn name(&self) -> (name: &str) {
        self.as_str()
    }
}

/// Whether the names of `items` never go down.
pub open spec fn sorted_by_name<T: Named>(items: Seq<T>) -> bool {
    forall|i: int, j: int|
        0 <= i <= j < items.len() ==> text_le(
            (#[trigger] items[i]).name_text(),
            (#[trigger] items[j]).name_text(),
        )
}

/// Where `name` goes in the sorted `items`: behind every smaller name, before
/// every name that is not smaller.
fn insertion_point<T: Named>(items: &Vec<T>, name: &str) -> (point: usize)
    requires
        sorted_by_name(items@),
    ensures
        point <= items@.len(),
        forall|i: int| 0 <= i < point ==> !text_le(name@, (#[trigger] items@[i]).name_text()),
        forall|i: int|
            point <= i < items@.len() ==> text_le(name@, (#[trigger] items@[i]).name_text()),
{
    let mut low: usize = 0;
    let mut high: usize = items.len();
    while low < high
        invariant
            low <= high <= items@.len(),
            sorted_by_name(items@),
            forall|i: int| 0 <= i < low ==> !text_le(name@, (#[trigger] items@[i]).name_text()),
            forall|i: int|
                high <= i < items@.len() ==> text_le(name@, (#[trigger] items@[i]).name_text()),
        decreases high - low,
    {
        let middle: usize = low + (high - low) / 2;
        let ghost pivot = items@[middle as int].name_text();
        if not_after(name, items[middle].name()) {
            assert forall|i: int| middle <= i < items@.len() implies text_le(
                name@,
                (#[trigger] items@[i]).name_text(),
            ) by {
                lemma_bytes_le_transitive(
                    vstd::utf8::encode_utf8(name@),
                    vstd::utf8::encode_utf8(pivot),
                    vstd::utf8::encode_utf8(items@[i].name_text()),
                );
            }
            high = middle;
        } else {
            assert forall|i: int| 0 <= i <= middle implies !text_le(
                name@,
                (#[trigger] items@[i]).name_text(),
            ) by {
                if text_le(name@, items@[i].name_text()) {
                    lemma_bytes_le_transitive(
                        vstd::utf8::encode_utf8(name@),
                        vstd::utf8::encode_utf8(items@[i].name_text()),
                        vstd::utf8::encode_utf8(pivot),
                    );
                }
            }
            low = middle + 1;
        }
    }
    low
}

proof fn lemma_insert_multiset<T>(items: Seq<T>, at: int, item: T)
    requires
        0 <= at <= items.len(),
    ensures
        items.insert(at, item).to_multiset() == items.to_multiset().insert(item),
{
    broadcast use vstd::seq_lib::group_to_multiset_ensures;
    broadcast use vstd::multiset::group_multiset_axioms;

    let longer = items.insert(at, item);
    assert(longer.remove(at) == items);
    assert(longer[at] == item);
    assert(longer.contains(item));
    assert(longer.to_multiset().remove(item).insert(item) =~= longer.to_multiset());
}

/// Sorts `items` by name.
pub fn sort_by_name<T: Named>(items: Vec<T>) -> (sorted: Vec<T>)
    ensures
        sorted_by_name(sorted@),
        sorted@.to_multiset() == items@.to_multiset(),
{
    let mut rest = items;
    let mut sorted: Vec<T> = Vec::new();
    assert(rest@.to_multiset().add(sorted@.to_multiset()) == items@.to_multiset()) by {
        broadcast use vstd::multiset::group_multiset_axioms;
        broadcast use vstd::seq_lib::group_to_multiset_ensures;

        assert(rest@.to_multiset().add(sorted@.to_multiset()) =~= items@.to_multiset());
    }
    while rest.len() > 0
        invariant
            sorted_by_name(sorted@),
            rest@.to_multiset().add(sorted@.to_multiset()) == items@.to_multiset(),
        decreases rest@.len(),
    {
        let ghost before = rest@;
        let ghost done = sorted@;
        let item = match rest.pop() {
            Some(item) => item,
            None => {
                return sorted;
            },
        };
        let point = insertion_point(&sorted, item.name());
        sorted.insert(point, item);
        proof {
            lemma_insert_multiset(done, point as int, item);
            assert(before == rest@.push(item));
            broadcast use vstd::multiset::group_multiset_axioms;
            broadcast use vstd::seq_lib::group_to_multiset_ensures;

            assert(rest@.to_multiset().add(sorted@.to_multiset()) =~= before.to_multiset().add(
                done.to_multiset(),
            ));
            assert forall|i: int, j: int| 0 <= i <= j < sorted@.len() implies text_le(
                (#[trigger] sorted@[i]).name_text(),
                (#[trigger] sorted@[j]).name_text(),
            ) by {
                let x = vstd::utf8::encode_utf8(sorted@[i].name_text());
                lemma_bytes_le_reflexive(x);
                if i != j && j == point {
                    assert(sorted@[i] == done[i]);
                    lemma_bytes_le_total(x, vstd::utf8::encode_utf8(item.name_text()));
                } else if i != j && i == point {
                    assert(sorted@[j] == done[j - 1]);
                } else if i != j {
                    let old_i = if i < point { i } else { i - 1 };
                    let old_j = if j < point { j } else { j - 1 };
                    assert(sorted@[i] == done[old_i]);
                    assert(sorted@[j] == done[old_j]);
                }
            }
        }
    }
    proof {
        broadcast use vstd::multiset::group_multiset_axioms;
        broadcast use vstd::seq_lib::group_to_multiset_ensures;

        assert(rest@ =~= Seq::empty());
        assert(sorted@.to_multiset() =~= items@.to_multiset());
    }
    sorted
}


/// Texts are ordered by the first byte in which they differ. Where none differs,
/// the shorter comes first.
pub proof fn law_first_different_byte_decides(
    front: Seq<u8>,
    left: Seq<u8>,
    right: Seq<u8>,
    low: u8,
    high: u8,
)
    requires
        low < high,
    ensures
        bytes_le(front + seq![low] + left, front + seq![high] + right),
        !bytes_le(front + seq![high] + right, front + seq![low] + left),
        bytes_le(front, front + left),
        left.len() > 0 ==> !bytes_le(front + left, front),
    decreases front.len(),
{
    let lesser = front + seq![low] + left;
    let greater = front + seq![high] + right;
    if front.len() == 0 {
        assert(lesser[0] == low && greater[0] == high);
    } else {
        let shorter = front.skip(1);
        law_first_different_byte_decides(shorter, left, right, low, high);
        assert(lesser.skip(1) =~= shorter + seq![low] + left);
        assert(greater.skip(1) =~= shorter + seq![high] + right);
        assert((front + left).skip(1) =~= shorter + left);
        assert(lesser[0] == front[0] && greater[0] == front[0]);
        assert((front + left)[0] == front[0]);
    }
}

/// Where values are sorted by name, the bytes of their names never go down.
pub proof fn law_sorted_names_go_up<T: Named>(items: Seq<T>, i: int, j: int)
    requires
        sorted_by_name(items),
        0 <= i <= j < items.len(),
    ensures
        bytes_le(
            vstd::utf8::encode_utf8(items[i].name_text()),
            vstd::utf8::encode_utf8(items[j].name_text()),
        ),
{
    assert(text_le(items[i].name_text(), items[j].name_text()));
}

/// Texts are sorted by their bytes.
pub proof fn law_sorted_texts_go_up(items: Seq<String>, i: int, j: int)
    requires
        sorted_by_name(items),
        0 <= i <= j < items.len(),
    ensures
        bytes_le(vstd::utf8::encode_utf8(items[i]@), vstd::utf8::encode_utf8(items[j]@)),
{
    law_sorted_names_go_up(items, i, j);
}

}
