use mesh::runtime::{EffectId, Runtime, SignalId};

#[test]
fn ids_are_version_4_uuids() {
    let mut rt = Runtime::new();
    let s = rt.create_signal();
    let e = rt.create_effect();
    assert_eq!((s.0 >> 76) & 0xf, 4);
    assert_eq!((e.0 >> 76) & 0xf, 4);
    assert_eq!((s.0 >> 62) & 0x3, 2);
    assert_ne!(s.0, e.0);
}

#[test]
fn a_fresh_signal_has_no_subscribers() {
    let mut rt = Runtime::new();
    let s = rt.create_signal();
    assert!(rt.subscribers(s).is_empty());
}

#[test]
fn reading_inside_an_effect_subscribes_it() {
    let mut rt = Runtime::new();
    let s = rt.create_signal();
    let t = rt.create_signal();
    let e = rt.create_effect();
    let prev = rt.begin_effect(e);
    assert_eq!(prev, None);
    rt.track_read(s);
    rt.track_read(s);
    rt.end_effect(prev);
    assert_eq!(rt.subscribers(s), vec![e]);
    assert!(rt.subscribers(t).is_empty());
}

#[test]
fn reading_outside_effects_subscribes_nothing() {
    let mut rt = Runtime::new();
    let s = rt.create_signal();
    rt.track_read(s);
    assert!(rt.subscribers(s).is_empty());
}

#[test]
fn nested_effects_restore_the_outer_one() {
    let mut rt = Runtime::new();
    let s = rt.create_signal();
    let t = rt.create_signal();
    let outer = rt.create_effect();
    let inner = rt.create_effect();
    let p0 = rt.begin_effect(outer);
    let p1 = rt.begin_effect(inner);
    assert_eq!(p1, Some(outer));
    rt.track_read(t);
    rt.end_effect(p1);
    rt.track_read(s);
    rt.end_effect(p0);
    assert_eq!(rt.subscribers(t), vec![inner]);
    assert_eq!(rt.subscribers(s), vec![outer]);
}

#[test]
fn every_reader_is_listed_once() {
    let mut rt = Runtime::new();
    let s = rt.create_signal();
    let effects: Vec<EffectId> = (0..5).map(|_| rt.create_effect()).collect();
    for e in &effects {
        let p = rt.begin_effect(*e);
        rt.track_read(s);
        rt.track_read(s);
        rt.end_effect(p);
    }
    let mut subs = rt.subscribers(s);
    subs.sort_by_key(|e| e.0);
    let mut expected = effects.clone();
    expected.sort_by_key(|e| e.0);
    assert_eq!(subs, expected);
    let _ = SignalId(0);
}

#[test]
fn reading_keeps_earlier_subscriptions() {
    let mut rt = Runtime::new();
    let s = rt.create_signal();
    let t = rt.create_signal();
    let a = rt.create_effect();
    let b = rt.create_effect();
    let p = rt.begin_effect(a);
    rt.track_read(s);
    rt.end_effect(p);
    let p = rt.begin_effect(b);
    rt.track_read(t);
    rt.end_effect(p);
    assert_eq!(rt.subscribers(s), vec![a]);
    assert_eq!(rt.subscribers(t), vec![b]);
}
