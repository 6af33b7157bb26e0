use eventify::callback::Recorder;
use eventify::property::Property;

#[test]
fn recorded_sequence_follows_committed_writes() {
    let mut p: Property<i32, Recorder<i32>> = Property::new(0);
    let b = p.bind(Recorder::new());

    let mut g = p.write();
    g.set(5);
    let p = g.commit();
    let rec = b.callback(&p).expect("binding registered");
    assert_eq!(rec.values(), &vec![5]);

    let mut g = p.write();
    g.set(7);
    let p = g.commit();
    let rec = b.callback(&p).expect("binding registered");
    assert_eq!(rec.values(), &vec![5, 7]);
}

#[test]
fn one_commit_delivers_one_notification() {
    let mut p: Property<i32, Recorder<i32>> = Property::new(0);
    let b = p.bind(Recorder::new());
    let mut g = p.write();
    g.set(1);
    g.set(2);
    g.set(3);
    let p = g.commit();
    let rec = b.callback(&p).expect("binding registered");
    assert_eq!(rec.values(), &vec![3]);
}

#[test]
fn binding_write_does_not_notify_its_own_callback() {
    let mut p: Property<&'static str, Recorder<&'static str>> = Property::new("a");
    let x = p.bind_mut(Recorder::new());
    let plain = p.bind(Recorder::new());

    let mut g = x.write(p);
    g.set("b");
    let p = g.commit();

    assert_eq!(*p.read().get(), "b");
    let own = x.callback(&p).expect("writer still bound");
    assert!(own.values().is_empty());
    let other = plain.callback(&p).expect("plain binding still bound");
    assert_eq!(other.values(), &vec!["b"]);
}

#[test]
fn two_bindings_notify_each_other_but_not_themselves() {
    let mut p: Property<i32, Recorder<i32>> = Property::new(0);
    let a = p.bind_mut(Recorder::new());
    let b = p.bind_mut(Recorder::new());

    let mut g = a.write(p);
    g.set(10);
    let p = g.commit();
    assert!(a.callback(&p).expect("a bound").values().is_empty());
    assert_eq!(b.callback(&p).expect("b bound").values(), &vec![10]);

    let mut g = b.write(p);
    g.set(20);
    let p = g.commit();
    assert_eq!(a.callback(&p).expect("a bound").values(), &vec![20]);
    assert_eq!(b.callback(&p).expect("b bound").values(), &vec![10]);
}

#[test]
fn plain_write_notifies_every_binding() {
    let mut p: Property<i32, Recorder<i32>> = Property::new(0);
    let a = p.bind_mut(Recorder::new());
    let b = p.bind(Recorder::new());
    let mut g = p.write();
    g.set(9);
    let p = g.commit();
    assert_eq!(a.callback(&p).expect("a bound").values(), &vec![9]);
    assert_eq!(b.callback(&p).expect("b bound").values(), &vec![9]);
}

#[test]
fn unbound_callback_is_not_notified() {
    let mut p: Property<i32, Recorder<i32>> = Property::new(0);
    let a = p.bind(Recorder::new());
    let b = p.bind(Recorder::new());
    p.unbind(a);
    assert_eq!(p.count(), 1);
    let mut g = p.write();
    g.set(4);
    let p = g.commit();
    assert_eq!(b.callback(&p).expect("b bound").values(), &vec![4]);
}

#[test]
fn unbind_mut_removes_the_binding() {
    let mut p: Property<i32, Recorder<i32>> = Property::new(0);
    let a = p.bind_mut(Recorder::new());
    let b = p.bind(Recorder::new());
    p.unbind_mut(a);
    assert_eq!(p.count(), 1);
    let mut g = p.write();
    g.set(6);
    let p = g.commit();
    assert_eq!(b.callback(&p).expect("b bound").values(), &vec![6]);
}

#[test]
fn leaked_binding_stays_bound() {
    let mut p: Property<i32, Recorder<i32>> = Property::new(0);
    let a = p.bind(Recorder::new());
    let b = p.bind_mut(Recorder::new());
    a.leak();
    b.leak();
    assert_eq!(p.count(), 2);
    let mut g = p.write();
    g.set(1);
    let p = g.commit();
    assert_eq!(p.count(), 2);
}

#[test]
fn read_guards_expose_the_value_without_notifying() {
    let mut p: Property<i32, Recorder<i32>> = Property::new(11);
    let a = p.bind(Recorder::new());
    {
        let g = p.read();
        assert_eq!(*g.get(), 11);
    }
    {
        let g = a.read(&p);
        assert_eq!(*g.get(), 11);
    }
    assert!(a.callback(&p).expect("a bound").values().is_empty());
}

#[test]
fn write_guard_get_and_get_mut_work_on_the_value() {
    let p: Property<i32, Recorder<i32>> = Property::new(1);
    let mut g = p.write();
    assert_eq!(*g.get(), 1);
    *g.get_mut() += 1;
    assert_eq!(*g.get(), 2);
    let p = g.commit();
    assert_eq!(*p.read().get(), 2);
}

#[test]
fn binding_write_guard_get_and_get_mut_work_on_the_value() {
    let mut p: Property<i32, Recorder<i32>> = Property::new(1);
    let a = p.bind_mut(Recorder::new());
    let mut g = a.write(p);
    assert_eq!(*g.get(), 1);
    *g.get_mut() = 8;
    let p = g.commit();
    assert_eq!(*p.read().get(), 8);
    assert!(a.callback(&p).expect("a bound").values().is_empty());
}
