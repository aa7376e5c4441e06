//! Registration units of the types that fields and arguments carry: a
//! wrapper registers what it wraps, a built-in scalar registers nothing.
use vstd::prelude::*;

use async_graphql::{MaybeUndefined, ID};

use crate::registry::{Register, Registry};

verus! {

#[verifier::external_type_specification]
#[verifier::external_body]
pub struct ExId(ID);

#[verifier::external_type_specification]
#[verifier::external_body]
#[verifier::reject_recursive_types(T)]
pub struct ExMaybeUndefined<T>(MaybeUndefined<T>);

impl<T: Register + 'static> Register for &T {
    fn register(registry: Registry) -> (r: Registry)
        ensures
            call_ensures(Registry::register::<T>, (registry,), r),
    {
        registry.register::<T>()
    }
}

impl<T: Register + Clone + 'static> Register for std::borrow::Cow<'_, T> {
    fn register(registry: Registry) -> (r: Registry)
        ensures
            call_ensures(Registry::register::<T>, (registry,), r),
    {
        registry.register::<T>()
    }
}

impl<T: Register + 'static> Register for Option<T> {
    fn register(registry: Registry) -> (r: Registry)
        ensures
            call_ensures(Registry::register::<T>, (registry,), r),
    {
        registry.register::<T>()
    }
}

impl<T: Register + 'static> Register for MaybeUndefined<T> {
    fn register(registry: Registry) -> (r: Registry)
        ensures
            call_ensures(Registry::register::<T>, (registry,), r),
    {
        registry.register::<T>()
    }
}

impl<T: Register + 'static, E> Register for Result<T, E> {
    fn register(registry: Registry) -> (r: Registry)
        ensures
            call_ensures(Registry::register::<T>, (registry,), r),
    {
        registry.register::<T>()
    }
}

impl<T: Register + 'static> Register for Vec<T> {
    fn register(registry: Registry) -> (r: Registry)
        ensures
            call_ensures(Registry::register::<T>, (registry,), r),
    {
        registry.register::<T>()
    }
}

impl<T: Register + 'static> Register for &[T] {
    fn register(registry: Registry) -> (r: Registry)
        ensures
            call_ensures(Registry::register::<T>, (registry,), r),
    {
        registry.register::<T>()
    }
}

impl Register for String {}

impl Register for &str {}

impl Register for str {}

impl Register for ID {}

impl Register for bool {}

impl Register for i8 {}

impl Register for i16 {}

impl Register for i32 {}

impl Register for i64 {}

impl Register for isize {}

impl Register for u8 {}

impl Register for u16 {}

impl Register for u32 {}

impl Register for u64 {}

impl Register for usize {}

} // verus!
