use decthings_model::async_waiter::{AsyncWaiter, GetOutcome};

#[test]
fn awaiter_registered_before_provide_is_woken_with_the_value() {
    let (mut waiter, provider) = AsyncWaiter::<u32>::new();
    let first = waiter.inner_get();
    assert_eq!(first, GetOutcome::Wait(0));
    let second = waiter.inner_get();
    assert_eq!(second, GetOutcome::Wait(1));
    let woken = provider.provide(&mut waiter, 7);
    assert_eq!(woken, vec![0, 1]);
    assert_eq!(*waiter.value(), 7);
}

#[test]
fn awaiter_registered_after_provide_sees_the_value_immediately() {
    let (mut waiter, provider) = AsyncWaiter::<&str>::new();
    let woken = provider.provide(&mut waiter, "ready");
    assert_eq!(woken, Vec::<u64>::new());
    assert_eq!(waiter.inner_get(), GetOutcome::Ready);
    assert_eq!(waiter.inner_get(), GetOutcome::Ready);
    assert_eq!(*waiter.value(), "ready");
}

#[test]
fn dropping_the_provider_releases_and_closes() {
    let (mut waiter, provider) = AsyncWaiter::<u32>::new();
    assert_eq!(waiter.inner_get(), GetOutcome::Wait(0));
    let released = provider.drop_provider(&mut waiter);
    assert_eq!(released, vec![0]);
    assert_eq!(waiter.inner_get(), GetOutcome::Closed);
    assert_eq!(waiter.inner_get(), GetOutcome::Closed);
}
