use network::server::actor_ids::{ActorId, ActorIds};

#[test]
fn actor_ids_ids() {
    let mut list = ActorIds::new(4);
    assert_eq!(list.count(), 0);
    let id = list.add();
    assert!(id.is_some());
    assert_eq!(list.count(), 1);
    list.remove(id.unwrap().0);
    assert_eq!(list.count(), 0);

    for i in 0..4 {
        let id = list.add();
        assert!(id.is_some());
        let id = id.unwrap();
        let index = list.find_index(id.0);
        assert!(index.is_some());
        assert_eq!(id.1, index.unwrap());
        assert_eq!(list.count(), i + 1)
    }

    let id = list.add();
    assert!(id.is_none());

    assert_eq!(list.count(), 4);
}

#[test]
fn simserver_ids() {
    let mut list = ActorIds::new(4);
    assert_eq!(list.count(), 0);
    let id = list.add();
    assert!(id.is_some());
    assert_eq!(list.count(), 1);
    list.remove(id.unwrap().0);
    assert_eq!(list.count(), 0);

    for i in 0..4 {
        let id = list.add();
        assert!(id.is_some());
        let id = id.unwrap();
        let index = list.find_index(id.0);
        assert!(index.is_some());
        assert_eq!(id.1, index.unwrap());
        assert_eq!(list.count(), i + 1)
    }

    let id = list.add();
    assert!(id.is_none());

    assert_eq!(list.count(), 4);
}

#[test]
fn actor_id_is_never_zero() {
    assert!(ActorId::new(0).is_none());
    assert_eq!(ActorId::new(1).unwrap().get(), 1);
    assert_eq!(ActorId::new(-7).unwrap().get(), -7);
    assert_eq!(ActorId::new(i16::MIN).unwrap().get(), i16::MIN);
}

#[test]
fn ids_are_issued_in_increasing_order_from_one() {
    let mut list = ActorIds::new(3);
    let first = list.add().unwrap();
    let second = list.add().unwrap();
    let third = list.add().unwrap();
    assert_eq!((first.0.get(), first.1), (1, 0));
    assert_eq!((second.0.get(), second.1), (2, 1));
    assert_eq!((third.0.get(), third.1), (3, 2));
    assert!(list.add().is_none());
    assert_eq!(list.count(), 3);
}

#[test]
fn remove_moves_the_last_actor_into_the_vacated_index() {
    let mut list = ActorIds::new(4);
    let a = list.add().unwrap().0;
    let b = list.add().unwrap().0;
    let c = list.add().unwrap().0;
    assert_eq!(list.remove(a), Some(0));
    assert_eq!(list.find_index(a), None);
    assert_eq!(list.find_index(c), Some(0));
    assert_eq!(list.find_index(b), Some(1));
    assert_eq!(list.count(), 2);
    assert_eq!(list.remove(a), None);
    assert_eq!(list.count(), 2);
    // a removed id is not issued again
    let d = list.add().unwrap();
    assert_eq!((d.0.get(), d.1), (4, 2));
}

#[test]
fn count_is_adds_minus_removes() {
    let mut list = ActorIds::new(2);
    let mut live: Vec<ActorId> = Vec::new();
    let mut adds = 0;
    let mut removes = 0;
    for round in 0..10 {
        if let Some((id, _)) = list.add() {
            live.push(id);
            adds += 1;
        }
        if round % 3 == 0 {
            let id = live.remove(0);
            assert!(list.remove(id).is_some());
            removes += 1;
            assert!(list.find_index(id).is_none());
        }
        assert_eq!(list.count(), adds - removes);
        for id in &live {
            assert!(list.find_index(*id).is_some());
        }
    }
    assert_eq!((adds, removes), (5, 4));
    assert_eq!(list.count(), 1);
}

#[test]
fn generator_wraps_past_the_greatest_id_and_skips_zero() {
    let mut list = ActorIds::new(1);
    let mut last = 0i16;
    for _ in 0..i16::MAX {
        let (id, _) = list.add().unwrap();
        assert_eq!(id.get(), last + 1);
        last = id.get();
        list.remove(id);
    }
    assert_eq!(last, i16::MAX);
    let (id, _) = list.add().unwrap();
    assert_eq!(id.get(), i16::MIN);
    list.remove(id);
    for _ in 0..i16::MAX - 1 {
        let (id, _) = list.add().unwrap();
        list.remove(id);
    }
    let (id, _) = list.add().unwrap();
    assert_eq!(id.get(), -1);
    list.remove(id);
    let (id, _) = list.add().unwrap();
    assert_eq!(id.get(), 1);
}
