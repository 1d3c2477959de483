use vstd::prelude::*;
use vstd::std_specs::iter::{DoubleEndedIteratorSpecImpl, IteratorSpec, IteratorSpecImpl};
use crate::sparse_key::SparseKey;

verus! {

/// An iterator over the values of a `SparseSet`.
pub struct Values<'a, T> {
    pub(crate) rest: &'a [T],
}

impl<'a, T> Values<'a, T> {
    /// The values that are still to come.
    pub open(crate) spec fn rest(self) -> Seq<T> {
        self.rest@
    }
}

impl<'a, T> Iterator for Values<'a, T> {
    type Item = &'a T;

    fn next(&mut self) -> (value: Option<&'a T>)
        ensures
            value is Some <==> old(self).rest().len() > 0,
            match value {
                Some(value) => {
                    &&& *value == old(self).rest().first()
                    &&& final(self).rest() == old(self).rest().drop_first()
                },
                None => final(self).rest() == old(self).rest(),
            },
    {
        if self.rest.len() == 0 {
            None
        } else {
            let (head, tail) = self.rest.split_at(1);
            self.rest = tail;
            Some(&head[0])
        }
    }

    fn size_hint(&self) -> (hint: (usize, Option<usize>))
        ensures
            hint.0 == self.rest().len(),
            hint.1 == Some(hint.0),
    {
        (self.rest.len(), Some(self.rest.len()))
    }
}

impl<'a, T> IteratorSpecImpl for Values<'a, T> {
    open spec fn obeys_prophetic_iter_laws(&self) -> bool {
        true
    }

    open spec fn remaining(&self) -> Seq<&'a T> {
        self.rest().as_ref()
    }

    open spec fn will_return_none(&self) -> bool {
        true
    }

    open spec fn decrease(&self) -> Option<nat> {
        Some(self.rest().len())
    }

    open spec fn initial_value_relation(&self, init: &Self) -> bool {
        self.rest() == init.rest()
    }

    open spec fn peek(&self, index: int) -> Option<&'a T> {
        if 0 <= index < self.rest().len() {
            Some(&self.rest()[index])
        } else {
            None
        }
    }
}

impl<'a, T> DoubleEndedIterator for Values<'a, T> {
    fn next_back(&mut self) -> (value: Option<&'a T>)
        ensures
            value is Some <==> old(self).rest().len() > 0,
            match value {
                Some(value) => {
                    &&& *value == old(self).rest().last()
                    &&& final(self).rest() == old(self).rest().drop_last()
                },
                None => final(self).rest() == old(self).rest(),
            },
    {
        if self.rest.len() == 0 {
            None
        } else {
            let (head, tail) = self.rest.split_at(self.rest.len() - 1);
            self.rest = head;
            Some(&tail[0])
        }
    }
}

impl<'a, T> DoubleEndedIteratorSpecImpl for Values<'a, T> {
    open spec fn peek_back(&self, index: int) -> Option<&'a T> {
        if 0 <= index < self.rest().len() {
            Some(&self.rest()[self.rest().len() - 1 - index])
        } else {
            None
        }
    }
}

/// An iterator over values yields each value that is still to come, once and in order, and then
/// nothing more.
pub proof fn law_values_yields<'a, T>(values: Values<'a, T>)
    ensures
        IteratorSpec::obeys_prophetic_iter_laws(&values),
        IteratorSpec::will_return_none(&values),
        IteratorSpec::remaining(&values).len() == values.rest().len(),
        forall|i: int|
            0 <= i < values.rest().len() ==> *(#[trigger] IteratorSpec::remaining(&values)[i])
                == values.rest()[i],
{
}

/// An iterator over the keys of a `SparseSet`.
pub struct Keys<'a> {
    pub(crate) rest: &'a [SparseKey],
}

impl<'a> Keys<'a> {
    /// The keys that are still to come.
    pub open(crate) spec fn rest(self) -> Seq<SparseKey> {
        self.rest@
    }
}

impl<'a> Iterator for Keys<'a> {
    type Item = SparseKey;

    fn next(&mut self) -> (key: Option<SparseKey>)
        ensures
            key is Some <==> old(self).rest().len() > 0,
            match key {
                Some(key) => {
                    &&& key == old(self).rest().first()
                    &&& final(self).rest() == old(self).rest().drop_first()
                },
                None => final(self).rest() == old(self).rest(),
            },
    {
        if self.rest.len() == 0 {
            None
        } else {
            let (head, tail) = self.rest.split_at(1);
            self.rest = tail;
            Some(head[0])
        }
    }

    fn size_hint(&self) -> (hint: (usize, Option<usize>))
        ensures
            hint.0 == self.rest().len(),
            hint.1 == Some(hint.0),
    {
        (self.rest.len(), Some(self.rest.len()))
    }
}

impl<'a> IteratorSpecImpl for Keys<'a> {
    open spec fn obeys_prophetic_iter_laws(&self) -> bool {
        true
    }

    open spec fn remaining(&self) -> Seq<SparseKey> {
        self.rest()
    }

    open spec fn will_return_none(&self) -> bool {
        true
    }

    open spec fn decrease(&self) -> Option<nat> {
        Some(self.rest().len())
    }

    open spec fn initial_value_relation(&self, init: &Self) -> bool {
        self.rest() == init.rest()
    }

    open spec fn peek(&self, index: int) -> Option<SparseKey> {
        if 0 <= index < self.rest().len() {
            Some(self.rest()[index])
        } else {
            None
        }
    }
}

impl<'a> DoubleEndedIterator for Keys<'a> {
    fn next_back(&mut self) -> (key: Option<SparseKey>)
        ensures
            key is Some <==> old(self).rest().len() > 0,
            match key {
                Some(key) => {
                    &&& key == old(self).rest().last()
                    &&& final(self).rest() == old(self).rest().drop_last()
                },
                None => final(self).rest() == old(self).rest(),
            },
    {
        if self.rest.len() == 0 {
            None
        } else {
            let (head, tail) = self.rest.split_at(self.rest.len() - 1);
            self.rest = head;
            Some(tail[0])
        }
    }
}

impl<'a> DoubleEndedIteratorSpecImpl for Keys<'a> {
    open spec fn peek_back(&self, index: int) -> Option<SparseKey> {
        if 0 <= index < self.rest().len() {
            Some(self.rest()[self.rest().len() - 1 - index])
        } else {
            None
        }
    }
}

/// An iterator over keys yields each key that is still to come, once and in order, and then
/// nothing more.
pub proof fn law_keys_yields<'a>(keys: Keys<'a>)
    ensures
        IteratorSpec::obeys_prophetic_iter_laws(&keys),
        IteratorSpec::will_return_none(&keys),
        IteratorSpec::remaining(&keys).len() == keys.rest().len(),
        forall|i: int|
            0 <= i < keys.rest().len() ==> #[trigger] IteratorSpec::remaining(&keys)[i]
                == keys.rest()[i],
{
}

/// An iterator over the keys and values of a `SparseSet`.
pub struct KeyValues<'a, T> {
    pub(crate) keys: &'a [SparseKey],
    pub(crate) values: &'a [T],
}

impl<'a, T> KeyValues<'a, T> {
    /// The keys that are still to come.
    pub open(crate) spec fn keys(self) -> Seq<SparseKey> {
        self.keys@
    }

    /// The values that are still to come.
    pub open(crate) spec fn values(self) -> Seq<T> {
        self.values@
    }

    /// As many keys as values are still to come.
    pub open spec fn wf(self) -> bool {
        self.keys().len() == self.values().len()
    }
}

impl<'a, T> Iterator for KeyValues<'a, T> {
    type Item = (SparseKey, &'a T);

    fn next(&mut self) -> (pair: Option<(SparseKey, &'a T)>)
        ensures
            old(self).keys().len() == old(self).values().len() ==> {
                &&& pair is Some <==> old(self).keys().len() > 0
                &&& match pair {
                    Some((key, value)) => {
                        &&& key == old(self).keys().first()
                        &&& *value == old(self).values().first()
                        &&& final(self).keys() == old(self).keys().drop_first()
                        &&& final(self).values() == old(self).values().drop_first()
                    },
                    None => {
                        &&& final(self).keys() == old(self).keys()
                        &&& final(self).values() == old(self).values()
                    },
                }
            },
    {
        if self.keys.len() == 0 || self.values.len() == 0 {
            None
        } else {
            let (key, keys) = self.keys.split_at(1);
            let (value, values) = self.values.split_at(1);
            self.keys = keys;
            self.values = values;
            Some((key[0], &value[0]))
        }
    }

    fn size_hint(&self) -> (hint: (usize, Option<usize>))
        ensures
            hint.0 == self.keys().len(),
            hint.1 == Some(hint.0),
    {
        (self.keys.len(), Some(self.keys.len()))
    }
}

impl<'a, T> IteratorSpecImpl for KeyValues<'a, T> {
    open spec fn obeys_prophetic_iter_laws(&self) -> bool {
        self.wf()
    }

    open spec fn remaining(&self) -> Seq<(SparseKey, &'a T)> {
        Seq::new(self.keys().len(), |i: int| (self.keys()[i], &self.values()[i]))
    }

    open spec fn will_return_none(&self) -> bool {
        true
    }

    open spec fn decrease(&self) -> Option<nat> {
        Some(self.keys().len())
    }

    open spec fn initial_value_relation(&self, init: &Self) -> bool {
        self.keys() == init.keys() && self.values() == init.values()
    }

    open spec fn peek(&self, index: int) -> Option<(SparseKey, &'a T)> {
        if 0 <= index < self.keys().len() {
            Some((self.keys()[index], &self.values()[index]))
        } else {
            None
        }
    }
}

impl<'a, T> DoubleEndedIterator for KeyValues<'a, T> {
    fn next_back(&mut self) -> (pair: Option<(SparseKey, &'a T)>)
        ensures
            old(self).keys().len() == old(self).values().len() ==> {
                &&& pair is Some <==> old(self).keys().len() > 0
                &&& match pair {
                    Some((key, value)) => {
                        &&& key == old(self).keys().last()
                        &&& *value == old(self).values().last()
                        &&& final(self).keys() == old(self).keys().drop_last()
                        &&& final(self).values() == old(self).values().drop_last()
                    },
                    None => {
                        &&& final(self).keys() == old(self).keys()
                        &&& final(self).values() == old(self).values()
                    },
                }
            },
    {
        if self.keys.len() == 0 || self.values.len() == 0 {
            None
        } else {
            let (keys, key) = self.keys.split_at(self.keys.len() - 1);
            let (values, value) = self.values.split_at(self.values.len() - 1);
            self.keys = keys;
            self.values = values;
            Some((key[0], &value[0]))
        }
    }
}

impl<'a, T> DoubleEndedIteratorSpecImpl for KeyValues<'a, T> {
    open spec fn peek_back(&self, index: int) -> Option<(SparseKey, &'a T)> {
        let len = self.keys().len();
        if 0 <= index < len {
            Some((self.keys()[len - 1 - index], &self.values()[len - 1 - index]))
        } else {
            None
        }
    }
}

/// An iterator over keys and values yields each key that is still to come, once and in order,
/// with the value that stands at the same place, and then nothing more.
pub proof fn law_key_values_yields<'a, T>(pairs: KeyValues<'a, T>)
    requires
        pairs.keys().len() == pairs.values().len(),
    ensures
        IteratorSpec::obeys_prophetic_iter_laws(&pairs),
        IteratorSpec::will_return_none(&pairs),
        IteratorSpec::remaining(&pairs).len() == pairs.keys().len(),
        forall|i: int|
            0 <= i < pairs.keys().len() ==> (#[trigger] IteratorSpec::remaining(&pairs)[i]).0
                == pairs.keys()[i] && *IteratorSpec::remaining(&pairs)[i].1 == pairs.values()[i],
{
}

/// An iterator over the values of a `SparseSet` that lets them be changed.
///
/// What it yields is stated by the contracts of `next` and `next_back` alone: each hands out one
/// end of the values that are still to come, and the values that stand there in the end are those
/// that were written through the references that were handed out.
pub struct ValuesMut<'a, T> {
    pub(crate) rest: Option<&'a mut [T]>,
}

impl<'a, T> ValuesMut<'a, T> {
    /// The values that are still to come, as a reference to them, if the end was not reached.
    pub open(crate) spec fn rest(self) -> Option<&'a mut [T]> {
        self.rest
    }

    /// The values that are still to come.
    pub open spec fn pending(self) -> Seq<T> {
        match self.rest() {
            Some(rest) => rest@,
            None => Seq::empty(),
        }
    }
}

/// The values that are still to come are those that the iterator still refers to.
pub proof fn law_values_mut_pending<'a, T>(values: ValuesMut<'a, T>)
    ensures
        values.rest() is None ==> values.pending().len() == 0,
        values.rest() matches Some(rest) ==> values.pending().len() == rest@.len() && forall|i: int|
            0 <= i < rest@.len() ==> #[trigger] values.pending()[i] == rest@[i],
{
}

impl<'a, T> Iterator for ValuesMut<'a, T> {
    type Item = &'a mut T;

    fn next(&mut self) -> (value: Option<&'a mut T>)
        ensures
            value is Some <==> old(self).pending().len() > 0,
            match value {
                Some(value) => {
                    &&& *value == old(self).pending().first()
                    &&& final(self).pending() == old(self).pending().drop_first()
                    &&& final(self).rest() is Some
                    &&& final(old(self).rest()->0)@
                        == seq![*final(value)] + final(final(self).rest()->0)@
                },
                None => {
                    &&& final(self).rest() is None
                    &&& old(self).rest() is Some ==> final(old(self).rest()->0)@
                        == Seq::<T>::empty()
                },
            },
    {
        match self.rest.take() {
            Some(rest) => {
                if rest.len() == 0 {
                    None
                } else {
                    let (head, tail) = rest.split_at_mut(1);
                    self.rest = Some(tail);
                    Some(&mut head[0])
                }
            },
            None => None,
        }
    }

    fn size_hint(&self) -> (hint: (usize, Option<usize>))
        ensures
            hint.0 == self.pending().len(),
            hint.1 == Some(hint.0),
    {
        match &self.rest {
            Some(rest) => (rest.len(), Some(rest.len())),
            None => (0, Some(0)),
        }
    }
}

impl<'a, T> IteratorSpecImpl for ValuesMut<'a, T> {
    open spec fn obeys_prophetic_iter_laws(&self) -> bool {
        false
    }

    open spec fn remaining(&self) -> Seq<&'a mut T> {
        Seq::empty()
    }

    open spec fn will_return_none(&self) -> bool {
        true
    }

    open spec fn decrease(&self) -> Option<nat> {
        None
    }

    open spec fn initial_value_relation(&self, init: &Self) -> bool {
        true
    }

    open spec fn peek(&self, index: int) -> Option<&'a mut T> {
        None
    }
}

impl<'a, T> DoubleEndedIterator for ValuesMut<'a, T> {
    fn next_back(&mut self) -> (value: Option<&'a mut T>)
        ensures
            value is Some <==> old(self).pending().len() > 0,
            match value {
                Some(value) => {
                    &&& *value == old(self).pending().last()
                    &&& final(self).pending() == old(self).pending().drop_last()
                    &&& final(self).rest() is Some
                    &&& final(old(self).rest()->0)@ == final(final(self).rest()->0)@.push(
                        *final(value),
                    )
                },
                None => {
                    &&& final(self).rest() is None
                    &&& old(self).rest() is Some ==> final(old(self).rest()->0)@
                        == Seq::<T>::empty()
                },
            },
    {
        match self.rest.take() {
            Some(rest) => {
                if rest.len() == 0 {
                    None
                } else {
                    let (head, tail) = rest.split_at_mut(rest.len() - 1);
                    self.rest = Some(head);
                    Some(&mut tail[0])
                }
            },
            None => None,
        }
    }
}

impl<'a, T> DoubleEndedIteratorSpecImpl for ValuesMut<'a, T> {
    open spec fn peek_back(&self, index: int) -> Option<&'a mut T> {
        None
    }
}

} // verus!
