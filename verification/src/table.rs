//! Tables whose rows are kept in the order of their keys, at most one row to a key.

use vstd::prelude::*;

use crate::text;
use crate::text::{is_less, text_eq};

verus! {

/// A key: a text, and within it a number.
#[verifier::ext_equal]
pub struct Key {
    pub code: Seq<char>,
    pub number: int,
}

/// Whether a key comes before another.
pub open spec fn key_less(a: Key, b: Key) -> bool {
    text::text_less(a.code, b.code) || (a.code == b.code && a.number < b.number)
}

/// Of two keys one comes first, or they are the same; and the order is transitive.
pub proof fn keys_are_ordered(a: Key, b: Key, c: Key)
    ensures
        !(key_less(a, b) && key_less(b, a)),
        !key_less(a, a),
        key_less(a, b) || a == b || key_less(b, a),
        key_less(a, b) && key_less(b, c) ==> key_less(a, c),
{
    text::text_order_is_total(a.code, b.code);
    text::text_order_is_total(a.code, a.code);
    if text::text_less(a.code, b.code) && text::text_less(b.code, c.code) {
        text::text_order_is_transitive(a.code, b.code, c.code);
    }
    if !key_less(a, b) && !key_less(b, a) {
        assert(a =~= b);
    }
}

/// What a table can hold.
pub trait Row: View + Sized {
    /// The key of a row.
    spec fn key_of(v: Self::V) -> Key;

    fn code(&self) -> (r: &str)
        ensures
            r@ == Self::key_of(self@).code,
    ;

    fn number(&self) -> (r: i64)
        ensures
            r == Self::key_of(self@).number,
    ;

    fn copy(&self) -> (r: Self)
        ensures
            r@ == self@,
    ;
}

/// A table.
#[derive(Debug)]
pub struct Table<T> {
    pub rows: Vec<T>,
}

impl<T: Row> View for Table<T> {
    type V = Seq<T::V>;

    open spec fn view(&self) -> Seq<T::V> {
        Table::<T>::views(self.rows@)
    }
}

impl<T: Row> Table<T> {
    pub open spec fn views(rows: Seq<T>) -> Seq<T::V> {
        Seq::new(rows.len(), |i: int| rows[i]@)
    }

    /// Whether rows come in the order of their keys, and no key twice.
    pub open spec fn sorted(rows: Seq<T::V>) -> bool {
        forall|i: int, j: int|
            0 <= i < j < rows.len() ==> key_less(
                T::key_of(#[trigger] rows[i]),
                T::key_of(#[trigger] rows[j]),
            )
    }

    pub open spec fn wf(self) -> bool {
        Self::sorted(self@)
    }

    /// The place of a key: behind the last row with a smaller one.
    pub open spec fn rank(rows: Seq<T::V>, key: Key) -> int
        decreases rows.len(),
    {
        if rows.len() == 0 {
            0
        } else if key_less(T::key_of(rows.last()), key) {
            rows.len() as int
        } else {
            Self::rank(rows.drop_last(), key)
        }
    }

    /// Whether there is a row with a key.
    pub open spec fn holds(rows: Seq<T::V>, key: Key) -> bool {
        let r = Self::rank(rows, key);
        r < rows.len() && T::key_of(rows[r]) == key
    }

    /// The row with a key.
    pub open spec fn found(rows: Seq<T::V>, key: Key) -> Option<T::V> {
        if Self::holds(rows, key) {
            Some(rows[Self::rank(rows, key)])
        } else {
            None
        }
    }

    /// Rows with one that is new, or takes the place of the one with its key.
    pub open spec fn written(rows: Seq<T::V>, v: T::V) -> Seq<T::V> {
        let r = Self::rank(rows, T::key_of(v));
        if Self::holds(rows, T::key_of(v)) {
            rows.update(r, v)
        } else {
            rows.insert(r, v)
        }
    }

    /// Rows with one that is new; the one that has its key already stays.
    pub open spec fn added(rows: Seq<T::V>, v: T::V) -> Seq<T::V> {
        if Self::holds(rows, T::key_of(v)) {
            rows
        } else {
            rows.insert(Self::rank(rows, T::key_of(v)), v)
        }
    }

    /// Rows with all of a list written, one after the other.
    pub open spec fn all_written(rows: Seq<T::V>, list: Seq<T::V>) -> Seq<T::V>
        decreases list.len(),
    {
        if list.len() == 0 {
            rows
        } else {
            Self::written(Self::all_written(rows, list.drop_last()), list.last())
        }
    }

    /// Rows with all of a list added, one after the other.
    pub open spec fn all_added(rows: Seq<T::V>, list: Seq<T::V>) -> Seq<T::V>
        decreases list.len(),
    {
        if list.len() == 0 {
            rows
        } else {
            Self::added(Self::all_added(rows, list.drop_last()), list.last())
        }
    }

    /// The rows with a text in their keys.
    pub open spec fn of_code(rows: Seq<T::V>, code: Seq<char>) -> Seq<T::V>
        decreases rows.len(),
    {
        if rows.len() == 0 {
            Seq::empty()
        } else {
            let before = Self::of_code(rows.drop_last(), code);
            if T::key_of(rows.last()).code == code {
                before.push(rows.last())
            } else {
                before
            }
        }
    }

    /// The rows with another text in their keys.
    pub open spec fn without_code(rows: Seq<T::V>, code: Seq<char>) -> Seq<T::V>
        decreases rows.len(),
    {
        if rows.len() == 0 {
            Seq::empty()
        } else {
            let before = Self::without_code(rows.drop_last(), code);
            if T::key_of(rows.last()).code == code {
                before
            } else {
                before.push(rows.last())
            }
        }
    }

    /// Whether a row is the last one with its text.
    pub open spec fn is_latest(rows: Seq<T::V>, i: int) -> bool {
        i + 1 == rows.len() || T::key_of(rows[i + 1]).code != T::key_of(rows[i]).code
    }

    /// The places of the rows among the first `n` that are the last ones with their texts.
    pub open spec fn latest_to(rows: Seq<T::V>, n: nat) -> Seq<int>
        decreases n,
    {
        if n == 0 {
            Seq::empty()
        } else {
            let before = Self::latest_to(rows, (n - 1) as nat);
            if Self::is_latest(rows, n - 1) {
                before.push(n - 1)
            } else {
                before
            }
        }
    }

    /// The places of the last row of each text.
    pub open spec fn latest(rows: Seq<T::V>) -> Seq<int> {
        Self::latest_to(rows, rows.len())
    }

    /// In a sorted table the rows before the place of a key have smaller keys, and those from
    /// it on do not.
    pub proof fn ranks_part_the_rows(rows: Seq<T::V>, key: Key)
        requires
            Self::sorted(rows),
        ensures
            0 <= Self::rank(rows, key) <= rows.len(),
            forall|i: int|
                0 <= i < Self::rank(rows, key) ==> key_less(T::key_of(#[trigger] rows[i]), key),
            forall|i: int|
                Self::rank(rows, key) <= i < rows.len() ==> !key_less(
                    T::key_of(#[trigger] rows[i]),
                    key,
                ),
        decreases rows.len(),
    {
        if rows.len() > 0 {
            let short = rows.drop_last();
            assert(Self::sorted(short)) by {
                assert forall|i: int, j: int| 0 <= i < j < short.len() implies key_less(
                    T::key_of(#[trigger] short[i]),
                    T::key_of(#[trigger] short[j]),
                ) by {
                    assert(short[i] == rows[i] && short[j] == rows[j]);
                }
            }
            if key_less(T::key_of(rows.last()), key) {
                assert forall|i: int| 0 <= i < rows.len() implies key_less(
                    T::key_of(#[trigger] rows[i]),
                    key,
                ) by {
                    if i < rows.len() - 1 {
                        keys_are_ordered(T::key_of(rows[i]), T::key_of(rows.last()), key);
                    }
                }
            } else {
                Self::ranks_part_the_rows(short, key);
                assert forall|i: int| 0 <= i < Self::rank(rows, key) implies key_less(
                    T::key_of(#[trigger] rows[i]),
                    key,
                ) by {
                    assert(short[i] == rows[i]);
                }
                assert forall|i: int|
                    Self::rank(rows, key) <= i < rows.len() implies !key_less(
                    T::key_of(#[trigger] rows[i]),
                    key,
                ) by {
                    if i < rows.len() - 1 {
                        assert(short[i] == rows[i]);
                    }
                }
            }
        }
    }

    /// A place is that of a key where the rows before it have smaller keys and those from it on
    /// do not.
    proof fn lemma_rank_is(rows: Seq<T::V>, key: Key, r: int)
        requires
            0 <= r <= rows.len(),
            forall|i: int| 0 <= i < r ==> key_less(T::key_of(#[trigger] rows[i]), key),
            forall|i: int|
                r <= i < rows.len() ==> !key_less(T::key_of(#[trigger] rows[i]), key),
        ensures
            Self::rank(rows, key) == r,
        decreases rows.len(),
    {
        if rows.len() > 0 {
            if r < rows.len() {
                let short = rows.drop_last();
                assert(!key_less(T::key_of(rows[rows.len() - 1]), key));
                assert forall|i: int| 0 <= i < r implies key_less(
                    T::key_of(#[trigger] short[i]),
                    key,
                ) by {
                    assert(short[i] == rows[i]);
                }
                assert forall|i: int| r <= i < short.len() implies !key_less(
                    T::key_of(#[trigger] short[i]),
                    key,
                ) by {
                    assert(short[i] == rows[i]);
                }
                Self::lemma_rank_is(short, key, r);
            } else {
                assert(key_less(T::key_of(rows[rows.len() - 1]), key));
            }
        }
    }

    /// Tables stay in order: writing or adding a row keeps the rows sorted.
    pub proof fn rows_stay_in_order(rows: Seq<T::V>, v: T::V)
        requires
            Self::sorted(rows),
        ensures
            Self::sorted(Self::written(rows, v)),
            Self::sorted(Self::added(rows, v)),
    {
        let k = T::key_of(v);
        let r = Self::rank(rows, k);
        Self::ranks_part_the_rows(rows, k);
        if !Self::holds(rows, k) {
            let after = rows.insert(r, v);
            assert forall|i: int, j: int| 0 <= i < j < after.len() implies key_less(
                T::key_of(#[trigger] after[i]),
                T::key_of(#[trigger] after[j]),
            ) by {
                if i < r {
                    assert(after[i] == rows[i]);
                    if j < r {
                        assert(after[j] == rows[j]);
                    } else if j > r {
                        assert(after[j] == rows[j - 1]);
                    }
                } else if i > r {
                    assert(after[i] == rows[i - 1]);
                    assert(after[j] == rows[j - 1]);
                } else {
                    assert(after[j] == rows[j - 1]);
                    keys_are_ordered(k, T::key_of(rows[j - 1]), k);
                    if j - 1 > r {
                        assert(key_less(T::key_of(rows[r]), T::key_of(rows[j - 1])));
                        keys_are_ordered(k, T::key_of(rows[r]), T::key_of(rows[j - 1]));
                    }
                }
            }
        } else {
            let after = rows.update(r, v);
            assert forall|i: int, j: int| 0 <= i < j < after.len() implies key_less(
                T::key_of(#[trigger] after[i]),
                T::key_of(#[trigger] after[j]),
            ) by {
                assert(T::key_of(after[i]) == T::key_of(rows[i]));
                assert(T::key_of(after[j]) == T::key_of(rows[j]));
            }
        }
    }

    /// What is written is read back: the row with its key is the one that was written.
    pub proof fn written_rows_are_read_back(rows: Seq<T::V>, v: T::V)
        requires
            Self::sorted(rows),
        ensures
            Self::found(Self::written(rows, v), T::key_of(v)) == Some(v),
    {
        let k = T::key_of(v);
        let r = Self::rank(rows, k);
        let after = Self::written(rows, v);
        Self::ranks_part_the_rows(rows, k);
        keys_are_ordered(k, k, k);
        assert forall|i: int| 0 <= i < r implies key_less(T::key_of(#[trigger] after[i]), k) by {
            assert(after[i] == rows[i]);
        }
        assert forall|i: int| r <= i < after.len() implies !key_less(
            T::key_of(#[trigger] after[i]),
            k,
        ) by {
            if i > r {
                if Self::holds(rows, k) {
                    assert(after[i] == rows[i]);
                } else {
                    assert(after[i] == rows[i - 1]);
                }
            }
        }
        Self::lemma_rank_is(after, k, r);
    }

    /// Writing or adding a row changes no other: what is read under another key is the same.
    pub proof fn other_rows_stay(rows: Seq<T::V>, v: T::V, key: Key)
        requires
            Self::sorted(rows),
            key != T::key_of(v),
        ensures
            Self::found(Self::written(rows, v), key) == Self::found(rows, key),
            Self::found(Self::added(rows, v), key) == Self::found(rows, key),
    {
        let k = T::key_of(v);
        let r = Self::rank(rows, k);
        Self::ranks_part_the_rows(rows, k);
        Self::ranks_part_the_rows(rows, key);
        Self::rows_stay_in_order(rows, v);
        keys_are_ordered(k, key, k);
        let q = Self::rank(rows, key);
        if Self::holds(rows, k) {
            let after = rows.update(r, v);
            assert forall|i: int| 0 <= i < q implies key_less(
                T::key_of(#[trigger] after[i]),
                key,
            ) by {
                assert(T::key_of(after[i]) == T::key_of(rows[i]));
            }
            assert forall|i: int| q <= i < after.len() implies !key_less(
                T::key_of(#[trigger] after[i]),
                key,
            ) by {
                assert(T::key_of(after[i]) == T::key_of(rows[i]));
            }
            Self::lemma_rank_is(after, key, q);
        } else {
            let after = rows.insert(r, v);
            let p = if key_less(k, key) {
                q + 1
            } else {
                q
            };
            if key_less(k, key) {
                if r > q {
                    keys_are_ordered(T::key_of(rows[q]), k, key);
                }
            } else {
                if q > r {
                    keys_are_ordered(key, k, T::key_of(rows[r]));
                    assert(key_less(T::key_of(rows[r]), key));
                    keys_are_ordered(T::key_of(rows[r]), key, k);
                }
            }
            assert forall|i: int| 0 <= i < p implies key_less(
                T::key_of(#[trigger] after[i]),
                key,
            ) by {
                if i < r {
                    assert(after[i] == rows[i]);
                } else if i > r {
                    assert(after[i] == rows[i - 1]);
                }
            }
            assert forall|i: int| p <= i < after.len() implies !key_less(
                T::key_of(#[trigger] after[i]),
                key,
            ) by {
                if i < r {
                    assert(after[i] == rows[i]);
                } else if i > r {
                    assert(after[i] == rows[i - 1]);
                }
            }
            Self::lemma_rank_is(after, key, p);
        }
    }

    /// Adding a row a second time changes nothing.
    pub proof fn adding_twice_is_adding_once(rows: Seq<T::V>, v: T::V)
        requires
            Self::sorted(rows),
        ensures
            Self::added(Self::added(rows, v), v) == Self::added(rows, v),
    {
        if !Self::holds(rows, T::key_of(v)) {
            assert(Self::added(rows, v) == Self::written(rows, v));
            Self::written_rows_are_read_back(rows, v);
        }
    }

    /// Whether all rows of a list have their keys in a table.
    pub open spec fn holds_all(rows: Seq<T::V>, list: Seq<T::V>) -> bool {
        forall|i: int| 0 <= i < list.len() ==> Self::holds(rows, T::key_of(#[trigger] list[i]))
    }

    proof fn lemma_added_holds(rows: Seq<T::V>, v: T::V, key: Key)
        requires
            Self::sorted(rows),
        ensures
            Self::holds(Self::added(rows, v), T::key_of(v)),
            Self::holds(rows, key) ==> Self::holds(Self::added(rows, v), key),
    {
        if !Self::holds(rows, T::key_of(v)) {
            assert(Self::added(rows, v) == Self::written(rows, v));
            Self::written_rows_are_read_back(rows, v);
            if key != T::key_of(v) {
                Self::other_rows_stay(rows, v, key);
            }
        }
    }

    proof fn lemma_all_added_holds(rows: Seq<T::V>, list: Seq<T::V>)
        requires
            Self::sorted(rows),
        ensures
            Self::sorted(Self::all_added(rows, list)),
            Self::holds_all(Self::all_added(rows, list), list),
        decreases list.len(),
    {
        if list.len() > 0 {
            let short = list.drop_last();
            let before = Self::all_added(rows, short);
            Self::lemma_all_added_holds(rows, short);
            Self::rows_stay_in_order(before, list.last());
            assert forall|i: int| 0 <= i < list.len() implies Self::holds(
                Self::all_added(rows, list),
                T::key_of(#[trigger] list[i]),
            ) by {
                Self::lemma_added_holds(before, list.last(), T::key_of(list[i]));
                if i < short.len() {
                    assert(short[i] == list[i]);
                }
            }
        }
    }

    proof fn lemma_held_rows_are_not_added(rows: Seq<T::V>, list: Seq<T::V>)
        requires
            Self::holds_all(rows, list),
        ensures
            Self::all_added(rows, list) == rows,
        decreases list.len(),
    {
        if list.len() > 0 {
            let short = list.drop_last();
            assert forall|i: int| 0 <= i < short.len() implies Self::holds(
                rows,
                T::key_of(#[trigger] short[i]),
            ) by {
                assert(short[i] == list[i]);
            }
            Self::lemma_held_rows_are_not_added(rows, short);
            assert(Self::holds(rows, T::key_of(list[list.len() - 1])));
        }
    }

    /// Adding a list a second time changes nothing.
    pub proof fn adding_a_list_twice_is_adding_it_once(rows: Seq<T::V>, list: Seq<T::V>)
        requires
            Self::sorted(rows),
        ensures
            Self::all_added(Self::all_added(rows, list), list) == Self::all_added(rows, list),
    {
        Self::lemma_all_added_holds(rows, list);
        Self::lemma_held_rows_are_not_added(Self::all_added(rows, list), list);
    }

    proof fn lemma_of_code_add(a: Seq<T::V>, b: Seq<T::V>, code: Seq<char>)
        ensures
            Self::of_code(a + b, code) == Self::of_code(a, code) + Self::of_code(b, code),
        decreases b.len(),
    {
        if b.len() == 0 {
            assert(a + b =~= a);
            assert(Self::of_code(b, code) =~= Seq::empty());
            assert(Self::of_code(a, code) + Self::of_code(b, code) =~= Self::of_code(a, code));
        } else {
            assert((a + b).drop_last() =~= a + b.drop_last());
            assert((a + b).last() == b.last());
            Self::lemma_of_code_add(a, b.drop_last(), code);
            let left = Self::of_code(a, code);
            let right = Self::of_code(b.drop_last(), code);
            assert((left + right).push(b.last()) =~= left + right.push(b.last()));
        }
    }

    proof fn lemma_of_code_one(v: T::V, code: Seq<char>)
        ensures
            Self::of_code(seq![v], code) == (if T::key_of(v).code == code {
                seq![v]
            } else {
                Seq::empty()
            }),
    {
        assert(seq![v].drop_last() =~= Seq::empty());
        assert(Self::of_code(seq![v].drop_last(), code) =~= Seq::empty());
        assert(Seq::empty().push(v) =~= seq![v]);
    }

    proof fn lemma_of_code_none(rows: Seq<T::V>, code: Seq<char>)
        requires
            forall|i: int| 0 <= i < rows.len() ==> T::key_of(#[trigger] rows[i]).code != code,
        ensures
            Self::of_code(rows, code) == Seq::<T::V>::empty(),
        decreases rows.len(),
    {
        if rows.len() > 0 {
            let short = rows.drop_last();
            assert forall|i: int| 0 <= i < short.len() implies T::key_of(#[trigger] short[i]).code
                != code by {
                assert(short[i] == rows[i]);
            }
            Self::lemma_of_code_none(short, code);
            assert(T::key_of(rows[rows.len() - 1]).code != code);
        }
    }

    /// The rows of a text stay when rows of another are written.
    pub proof fn rows_of_other_texts_stay(rows: Seq<T::V>, v: T::V, code: Seq<char>)
        requires
            Self::sorted(rows),
            T::key_of(v).code != code,
        ensures
            Self::of_code(Self::written(rows, v), code) == Self::of_code(rows, code),
    {
        let k = T::key_of(v);
        let r = Self::rank(rows, k);
        Self::ranks_part_the_rows(rows, k);
        let a = rows.take(r);
        Self::lemma_of_code_one(v, code);
        if Self::holds(rows, k) {
            let b = rows.skip(r + 1);
            assert(rows =~= (a + seq![rows[r]]) + b);
            assert(rows.update(r, v) =~= (a + seq![v]) + b);
            Self::lemma_of_code_one(rows[r], code);
            Self::lemma_of_code_add(a, seq![v], code);
            Self::lemma_of_code_add(a, seq![rows[r]], code);
            Self::lemma_of_code_add(a + seq![v], b, code);
            Self::lemma_of_code_add(a + seq![rows[r]], b, code);
        } else {
            let b = rows.skip(r);
            assert(rows =~= a + b);
            assert(rows.insert(r, v) =~= (a + seq![v]) + b);
            Self::lemma_of_code_add(a, b, code);
            Self::lemma_of_code_add(a, seq![v], code);
            Self::lemma_of_code_add(a + seq![v], b, code);
            assert(Self::of_code(a, code) + Seq::<T::V>::empty() =~= Self::of_code(a, code));
        }
    }

    /// A row behind all others of its text is written behind them.
    pub proof fn later_rows_are_appended(rows: Seq<T::V>, v: T::V)
        requires
            Self::sorted(rows),
            forall|i: int|
                0 <= i < rows.len() && T::key_of(#[trigger] rows[i]).code == T::key_of(v).code
                    ==> T::key_of(rows[i]).number < T::key_of(v).number,
        ensures
            Self::of_code(Self::written(rows, v), T::key_of(v).code) == Self::of_code(
                rows,
                T::key_of(v).code,
            ).push(v),
    {
        let k = T::key_of(v);
        let code = k.code;
        let r = Self::rank(rows, k);
        Self::ranks_part_the_rows(rows, k);
        let a = rows.take(r);
        let b = rows.skip(r);
        if Self::holds(rows, k) {
            assert(T::key_of(rows[r]).number < k.number);
        }
        assert forall|i: int| 0 <= i < b.len() implies T::key_of(#[trigger] b[i]).code
            != code by {
            assert(b[i] == rows[r + i]);
        }
        assert(rows =~= a + b);
        assert(rows.insert(r, v) =~= (a + seq![v]) + b);
        Self::lemma_of_code_none(b, code);
        Self::lemma_of_code_one(v, code);
        Self::lemma_of_code_add(a, b, code);
        Self::lemma_of_code_add(a, seq![v], code);
        Self::lemma_of_code_add(a + seq![v], b, code);
        let own = Self::of_code(a, code);
        assert(own + Seq::<T::V>::empty() =~= own);
        assert((own + seq![v]) + Seq::<T::V>::empty() =~= own.push(v));
    }

    /// Whether rows all have a text, and come by their numbers.
    pub open spec fn runs(list: Seq<T::V>, code: Seq<char>) -> bool {
        &&& forall|i: int| 0 <= i < list.len() ==> T::key_of(#[trigger] list[i]).code == code
        &&& forall|i: int, j: int|
            0 <= i < j < list.len() ==> T::key_of(#[trigger] list[i]).number < T::key_of(
                #[trigger] list[j],
            ).number
    }

    /// A row with a text is among the rows of the text.
    pub proof fn lemma_of_code_member(rows: Seq<T::V>, code: Seq<char>, i: int) -> (at: int)
        requires
            0 <= i < rows.len(),
            T::key_of(rows[i]).code == code,
        ensures
            0 <= at < Self::of_code(rows, code).len(),
            Self::of_code(rows, code)[at] == rows[i],
        decreases rows.len(),
    {
        if i == rows.len() - 1 {
            Self::of_code(rows, code).len() - 1
        } else {
            let short = rows.drop_last();
            assert(short[i] == rows[i]);
            let at = Self::lemma_of_code_member(short, code, i);
            at
        }
    }

    /// Written into a table without rows of their text, rows that come by their numbers are
    /// the rows of their text; those of other texts stay.
    pub proof fn runs_are_written_as_they_are(
        rows: Seq<T::V>,
        list: Seq<T::V>,
        code: Seq<char>,
        other: Seq<char>,
    )
        requires
            Self::sorted(rows),
            Self::of_code(rows, code).len() == 0,
            Self::runs(list, code),
            other != code,
        ensures
            Self::sorted(Self::all_written(rows, list)),
            Self::of_code(Self::all_written(rows, list), code) == list,
            Self::of_code(Self::all_written(rows, list), other) == Self::of_code(rows, other),
        decreases list.len(),
    {
        if list.len() == 0 {
            assert(Self::of_code(rows, code) =~= list);
        } else {
            let short = list.drop_last();
            let v = list.last();
            let before = Self::all_written(rows, short);
            assert(Self::runs(short, code)) by {
                assert forall|i: int| 0 <= i < short.len() implies T::key_of(
                    #[trigger] short[i],
                ).code == code by {
                    assert(short[i] == list[i]);
                }
                assert forall|i: int, j: int| 0 <= i < j < short.len() implies T::key_of(
                    #[trigger] short[i],
                ).number < T::key_of(#[trigger] short[j]).number by {
                    assert(short[i] == list[i] && short[j] == list[j]);
                }
            }
            Self::runs_are_written_as_they_are(rows, short, code, other);
            assert(T::key_of(list[list.len() - 1]).code == code);
            Self::rows_stay_in_order(before, v);
            Self::rows_of_other_texts_stay(before, v, other);
            assert forall|i: int|
                0 <= i < before.len() && T::key_of(#[trigger] before[i]).code == T::key_of(
                    v,
                ).code implies T::key_of(before[i]).number < T::key_of(v).number by {
                let at = Self::lemma_of_code_member(before, code, i);
                assert(short[at] == list[at]);
                assert(list[list.len() - 1] == v);
                assert(T::key_of(list[at]).number < T::key_of(list[list.len() - 1]).number);
            }
            Self::later_rows_are_appended(before, v);
            assert(short.push(v) =~= list);
        }
    }

    /// Taking out the rows of a text leaves none of it, and all others.
    pub proof fn taking_out_a_text_leaves_the_others(
        rows: Seq<T::V>,
        code: Seq<char>,
        other: Seq<char>,
    )
        requires
            Self::sorted(rows),
            other != code,
        ensures
            Self::sorted(Self::without_code(rows, code)),
            Self::of_code(Self::without_code(rows, code), code).len() == 0,
            Self::of_code(Self::without_code(rows, code), other) == Self::of_code(rows, other),
        decreases rows.len(),
    {
        Self::lemma_without_stays_sorted(rows, code);
        if rows.len() > 0 {
            let short = rows.drop_last();
            assert forall|i: int, j: int| 0 <= i < j < short.len() implies key_less(
                T::key_of(#[trigger] short[i]),
                T::key_of(#[trigger] short[j]),
            ) by {
                assert(short[i] == rows[i] && short[j] == rows[j]);
            }
            Self::taking_out_a_text_leaves_the_others(short, code, other);
            let kept = Self::without_code(short, code);
            if T::key_of(rows.last()).code != code {
                assert(kept.push(rows.last()).drop_last() =~= kept);
            }
        }
    }

    /// The rows of a text come by their numbers.
    pub proof fn rows_of_a_text_run(rows: Seq<T::V>, code: Seq<char>)
        requires
            Self::sorted(rows),
        ensures
            Self::runs(Self::of_code(rows, code), code),
            forall|i: int|
                0 <= i < Self::of_code(rows, code).len() ==> rows.contains(
                    #[trigger] Self::of_code(rows, code)[i],
                ),
        decreases rows.len(),
    {
        if rows.len() > 0 {
            let short = rows.drop_last();
            assert forall|i: int, j: int| 0 <= i < j < short.len() implies key_less(
                T::key_of(#[trigger] short[i]),
                T::key_of(#[trigger] short[j]),
            ) by {
                assert(short[i] == rows[i] && short[j] == rows[j]);
            }
            Self::rows_of_a_text_run(short, code);
            let before = Self::of_code(short, code);
            let own = Self::of_code(rows, code);
            assert forall|i: int| 0 <= i < own.len() implies rows.contains(#[trigger] own[i]) by {
                if i < before.len() {
                    assert(short.contains(before[i]));
                    let at = choose|at: int| 0 <= at < short.len() && short[at] == before[i];
                    assert(rows[at] == before[i]);
                } else {
                    assert(rows[rows.len() - 1] == own[i]);
                }
            }
            assert forall|i: int, j: int| 0 <= i < j < own.len() implies T::key_of(
                #[trigger] own[i],
            ).number < T::key_of(#[trigger] own[j]).number by {
                if j < before.len() {
                    assert(own[i] == before[i] && own[j] == before[j]);
                } else {
                    assert(own[i] == before[i]);
                    assert(short.contains(before[i]));
                    let at = choose|at: int| 0 <= at < short.len() && short[at] == before[i];
                    assert(rows[at] == before[i]);
                    assert(key_less(T::key_of(rows[at]), T::key_of(rows[rows.len() - 1])));
                    text::text_order_is_total(code, code);
                }
            }
        }
    }

    /// In a sorted table the last row of a text has the greatest number under that text.
    pub proof fn the_latest_row_is_the_latest(rows: Seq<T::V>, i: int, j: int)
        requires
            Self::sorted(rows),
            0 <= i < rows.len(),
            0 <= j < rows.len(),
            Self::is_latest(rows, i),
            T::key_of(rows[j]).code == T::key_of(rows[i]).code,
        ensures
            T::key_of(rows[j]).number <= T::key_of(rows[i]).number,
    {
        let a = T::key_of(rows[i]);
        let b = T::key_of(rows[j]);
        keys_are_ordered(a, b, a);
        if j > i {
            let c = T::key_of(rows[i + 1]);
            assert(key_less(a, c));
            if j > i + 1 {
                assert(key_less(c, b));
            }
            text::text_order_is_total(a.code, c.code);
            text::text_order_is_total(a.code, a.code);
            if text::text_less(c.code, b.code) {
                text::text_order_is_total(c.code, a.code);
            }
        } else if j < i {
            assert(key_less(b, a));
            text::text_order_is_total(a.code, a.code);
        }
    }

    pub fn new() -> (r: Self)
        ensures
            r.wf(),
            r@ == Seq::<T::V>::empty(),
    {
        let r = Table { rows: Vec::new() };
        assert(r@ =~= Seq::<T::V>::empty());
        r
    }

    fn below(row: &T, code: &str, number: i64) -> (r: bool)
        ensures
            r == key_less(T::key_of(row@), (Key { code: code@, number: number as int })),
    {
        is_less(row.code(), code) || (text_eq(row.code(), code) && row.number() < number)
    }

    fn place(&self, code: &str, number: i64) -> (r: usize)
        ensures
            r == Self::rank(self@, Key { code: code@, number: number as int }),
            r <= self.rows@.len(),
    {
        let ghost key = Key { code: code@, number: number as int };
        let mut n: usize = self.rows.len();
        assert(self@.take(n as int) =~= self@);
        while n > 0 && !Self::below(&self.rows[n - 1], code, number)
            invariant
                n <= self.rows@.len(),
                key == (Key { code: code@, number: number as int }),
                Self::rank(self@, key) == Self::rank(self@.take(n as int), key),
            decreases n,
        {
            assert(self@.take(n as int).last() == self.rows@[n - 1]@);
            assert(self@.take(n as int).drop_last() =~= self@.take(n - 1));
            n = n - 1;
        }
        if n > 0 {
            assert(self@.take(n as int).last() == self.rows@[n - 1]@);
        }
        n
    }

    fn is_at(&self, at: usize, code: &str, number: i64) -> (r: bool)
        requires
            at <= self.rows@.len(),
        ensures
            r == (at < self.rows@.len() && T::key_of(self@[at as int]) == (Key {
                code: code@,
                number: number as int,
            })),
    {
        if at < self.rows.len() {
            let row = &self.rows[at];
            let r = text_eq(row.code(), code) && row.number() == number;
            proof {
                let k = Key { code: code@, number: number as int };
                if r {
                    assert(T::key_of(self@[at as int]) =~= k);
                }
            }
            r
        } else {
            false
        }
    }

    /// The row with a key.
    pub fn get(&self, code: &str, number: i64) -> (r: Option<&T>)
        ensures
            (match r {
                Some(row) => Some(row@),
                None => None,
            }) == Self::found(self@, Key { code: code@, number: number as int }),
    {
        let at = self.place(code, number);
        if self.is_at(at, code, number) {
            Some(&self.rows[at])
        } else {
            None
        }
    }

    /// Writes a row: a new one, or in place of the one with its key.
    pub fn write(&mut self, row: T)
        requires
            old(self).wf(),
        ensures
            final(self).wf(),
            final(self)@ == Self::written(old(self)@, row@),
    {
        let ghost before = self@;
        let ghost v = row@;
        let at = self.place(row.code(), row.number());
        let there = self.is_at(at, row.code(), row.number());
        proof {
            assert(T::key_of(v) =~= Key {
                code: T::key_of(v).code,
                number: T::key_of(v).number,
            });
            Self::rows_stay_in_order(before, v);
        }
        if there {
            self.rows.set(at, row);
            assert(self@ =~= before.update(at as int, v));
        } else {
            self.rows.insert(at, row);
            assert(self@ =~= before.insert(at as int, v));
        }
    }

    /// Adds a row unless there is one with its key.
    pub fn add(&mut self, row: T) -> (r: bool)
        requires
            old(self).wf(),
        ensures
            final(self).wf(),
            final(self)@ == Self::added(old(self)@, row@),
            r == !Self::holds(old(self)@, T::key_of(row@)),
    {
        let ghost before = self@;
        let ghost v = row@;
        let at = self.place(row.code(), row.number());
        let there = self.is_at(at, row.code(), row.number());
        proof {
            assert(T::key_of(v) =~= Key {
                code: T::key_of(v).code,
                number: T::key_of(v).number,
            });
            Self::rows_stay_in_order(before, v);
        }
        if !there {
            self.rows.insert(at, row);
            assert(self@ =~= before.insert(at as int, v));
        }
        !there
    }

    /// Writes all rows of a list.
    pub fn write_all(&mut self, list: &Vec<T>)
        requires
            old(self).wf(),
        ensures
            final(self).wf(),
            final(self)@ == Self::all_written(old(self)@, Self::views(list@)),
    {
        let ghost before = self@;
        let ghost views = Self::views(list@);
        assert(views.take(0) =~= Seq::empty());
        for i in 0..list.len()
            invariant
                self.wf(),
                views == Self::views(list@),
                self@ == Self::all_written(before, views.take(i as int)),
        {
            assert(views.take(i + 1).drop_last() =~= views.take(i as int));
            assert(views.take(i + 1).last() == list@[i as int]@);
            self.write(list[i].copy());
        }
        assert(views.take(views.len() as int) =~= views);
    }

    /// Adds all rows of a list whose keys are not there yet. Gives how many were added.
    pub fn add_all(&mut self, list: &Vec<T>) -> (r: usize)
        requires
            old(self).wf(),
        ensures
            final(self).wf(),
            final(self)@ == Self::all_added(old(self)@, Self::views(list@)),
            r == final(self)@.len() - old(self)@.len(),
    {
        let mut count: usize = 0;
        let ghost before = self@;
        let ghost views = Self::views(list@);
        assert(views.take(0) =~= Seq::empty());
        for i in 0..list.len()
            invariant
                self.wf(),
                views == Self::views(list@),
                self@ == Self::all_added(before, views.take(i as int)),
                count == self@.len() - before.len(),
                count <= i,
        {
            assert(views.take(i + 1).drop_last() =~= views.take(i as int));
            assert(views.take(i + 1).last() == list@[i as int]@);
            proof {
                Self::ranks_part_the_rows(self@, T::key_of(list@[i as int]@));
            }
            if self.add(list[i].copy()) {
                count = count + 1;
            }
        }
        assert(views.take(views.len() as int) =~= views);
        count
    }

    /// The rows with a text in their keys.
    pub fn rows_of(&self, code: &str) -> (r: Vec<T>)
        ensures
            Self::views(r@) == Self::of_code(self@, code@),
    {
        let mut out: Vec<T> = Vec::new();
        assert(self@.take(0) =~= Seq::empty());
        assert(Self::views(out@) =~= Seq::empty());
        for i in 0..self.rows.len()
            invariant
                Self::views(out@) == Self::of_code(self@.take(i as int), code@),
        {
            assert(self@.take(i + 1).drop_last() =~= self@.take(i as int));
            assert(self@.take(i + 1).last() == self.rows@[i as int]@);
            if text_eq(self.rows[i].code(), code) {
                let ghost before = Self::views(out@);
                let row = self.rows[i].copy();
                out.push(row);
                assert(Self::views(out@) =~= before.push(self.rows@[i as int]@));
            }
        }
        assert(self@.take(self@.len() as int) =~= self@);
        out
    }

    proof fn lemma_without_code(rows: Seq<T::V>, code: Seq<char>, i: int) -> (at: int)
        requires
            0 <= i < Self::without_code(rows, code).len(),
        ensures
            0 <= at < rows.len(),
            rows[at] == Self::without_code(rows, code)[i],
            T::key_of(rows[at]).code != code,
        decreases rows.len(),
    {
        let short = rows.drop_last();
        let before = Self::without_code(short, code);
        if i < before.len() {
            let at = Self::lemma_without_code(short, code, i);
            assert(short[at] == rows[at]);
            at
        } else {
            rows.len() - 1
        }
    }

    /// Taking out the rows of a text keeps the others sorted.
    proof fn lemma_without_stays_sorted(rows: Seq<T::V>, code: Seq<char>)
        requires
            Self::sorted(rows),
        ensures
            Self::sorted(Self::without_code(rows, code)),
        decreases rows.len(),
    {
        if rows.len() > 0 {
            let short = rows.drop_last();
            assert forall|i: int, j: int| 0 <= i < j < short.len() implies key_less(
                T::key_of(#[trigger] short[i]),
                T::key_of(#[trigger] short[j]),
            ) by {
                assert(short[i] == rows[i] && short[j] == rows[j]);
            }
            Self::lemma_without_stays_sorted(short, code);
            let before = Self::without_code(short, code);
            let after = Self::without_code(rows, code);
            assert forall|i: int, j: int| 0 <= i < j < after.len() implies key_less(
                T::key_of(#[trigger] after[i]),
                T::key_of(#[trigger] after[j]),
            ) by {
                if j < before.len() {
                    assert(after[i] == before[i] && after[j] == before[j]);
                } else {
                    let at = Self::lemma_without_code(short, code, i);
                    assert(after[i] == rows[at]);
                    assert(after[j] == rows[rows.len() - 1]);
                }
            }
        }
    }

    /// Takes out the rows of a text.
    pub fn remove_code(&mut self, code: &str)
        requires
            old(self).wf(),
        ensures
            final(self).wf(),
            final(self)@ == Self::without_code(old(self)@, code@),
    {
        let ghost before = self@;
        let mut out: Vec<T> = Vec::new();
        assert(before.take(0) =~= Seq::empty());
        assert(Self::views(out@) =~= Seq::empty());
        for i in 0..self.rows.len()
            invariant
                self@ == before,
                Self::views(out@) == Self::without_code(before.take(i as int), code@),
        {
            assert(before.take(i + 1).drop_last() =~= before.take(i as int));
            assert(before.take(i + 1).last() == self.rows@[i as int]@);
            if !text_eq(self.rows[i].code(), code) {
                let ghost views = Self::views(out@);
                let row = self.rows[i].copy();
                out.push(row);
                assert(Self::views(out@) =~= views.push(self.rows@[i as int]@));
            }
        }
        assert(before.take(before.len() as int) =~= before);
        proof {
            Self::lemma_without_stays_sorted(before, code@);
        }
        self.rows = out;
    }

    /// The places of the last row of each text.
    pub fn latest_places(&self) -> (r: Vec<usize>)
        ensures
            r@.len() == Self::latest(self@).len(),
            forall|i: int|
                0 <= i < r@.len() ==> #[trigger] r@[i] == Self::latest(self@)[i] && r@[i]
                    < self.rows@.len(),
    {
        let mut out: Vec<usize> = Vec::new();
        for i in 0..self.rows.len()
            invariant
                out@.len() == Self::latest_to(self@, i as nat).len(),
                forall|j: int|
                    0 <= j < out@.len() ==> #[trigger] out@[j] == Self::latest_to(
                        self@,
                        i as nat,
                    )[j] && out@[j] < self.rows@.len(),
        {
            let last = if i + 1 < self.rows.len() {
                !text_eq(self.rows[i + 1].code(), self.rows[i].code())
            } else {
                true
            };
            if last {
                out.push(i);
            }
        }
        out
    }
}

} // verus!
