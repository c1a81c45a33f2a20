//! Objects as maps of strings.
use vstd::prelude::*;

use crate::collections::entries::converts;
use crate::collections::vec_map::VecMap;
use crate::val::object::Object;

verus! {

impl<V> vstd::std_specs::convert::TryFromSpecImpl<Object<V>> for VecMap<String> where String: TryFrom<V> {
    open spec fn obeys_try_from_spec() -> bool {
        // The result is fixed by what it holds, which the function's own contract states.
        false
    }

    open spec fn try_from_spec(v: Object<V>) -> Result<Self, <String as TryFrom<V>>::Error> {
        arbitrary()
    }
}

impl<V> TryFrom<Object<V>> for VecMap<String> where String: TryFrom<V> {
    type Error = <String as TryFrom<V>>::Error;

    /// A map of strings; the first value that is none ends it.
    fn try_from(v: Object<V>) -> (r: Result<Self, <String as TryFrom<V>>::Error>)
        ensures
            match r {
                Ok(m) => {
                    &&& v.wf() ==> m.wf()
                    &&& m@.len() == v@.len()
                    &&& forall|i: int|
                        0 <= i < v@.len() ==> (#[trigger] m@[i]).0 == v@[i].0 && call_ensures(
                            String::try_from,
                            (v@[i].1,),
                            Ok(m@[i].1),
                        )
                },
                Err(e) => exists|i: int|
                    {
                        &&& 0 <= i < v@.len()
                        &&& call_ensures(String::try_from, ((#[trigger] v@[i]).1,), Err(e))
                        &&& forall|j: int|
                            0 <= j < i ==> converts::<V, String>((#[trigger] v@[j]).1)
                    },
            },
    {
        assert(v@ == v.0.0@);
        v.0.0.try_convert()
    }
}

} // verus!
