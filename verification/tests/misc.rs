use cpge::combinatorial::{combination_factors, factorial};
use cpge::gl::device::{choose_device, DeviceCandidate, DeviceKind, QueueFamily};
use cpge::gl::event::{classify_event, lowercase_key, EventClass, MouseAction, MouseButton, WindowEventKind};
use cpge::iter::Cross;
use cpge::mem::{AbstractVec, Living, Owned};
use cpge::traits::near_zero::NearZero;
use cpge::traits::unpack_iter::UnpackableIter;

#[test]
fn factorial_values() {
    assert_eq!(factorial(0), 1);
    assert_eq!(factorial(1), 1);
    assert_eq!(factorial(5), 120);
    assert_eq!(factorial(10), 3628800);
}

#[test]
fn combination_factors_values() {
    // 5 choose 2 = (4 * 5) / 2!
    assert_eq!(combination_factors(2, 5), (20, 2));
    assert_eq!(combination_factors(0, 7), (1, 1));
    assert_eq!(combination_factors(3, 3), (6, 6));
}

#[test]
fn cross_pairs_every_item() {
    let mut c = Cross::new(0..3, vec![0, 1, 2]);
    let mut pairs = Vec::new();
    while let Some(p) = c.next() {
        pairs.push(p);
    }
    let mut expected = Vec::new();
    for i in 0..3 {
        for j in 0..3 {
            expected.push((i, j));
        }
    }
    assert_eq!(pairs, expected);
}

#[test]
fn cross_with_no_second_item_is_empty() {
    let mut c = Cross::new(0..3, Vec::<i32>::new());
    assert_eq!(c.next(), None);
}

#[test]
fn living_and_owned() {
    let l: Living<'_, i32, false> = Living::new(5);
    assert_eq!(*l.get(), 5);
    let mut m: Living<'_, i32, true> = Living::new(1);
    *m.to_mut() = 2;
    assert_eq!(*m.get(), 2);
}

#[test]
fn abstract_vec_on_vec() {
    let mut v: Vec<i32> = vec![1, 2, 3];
    AbstractVec::push(&mut v, 4);
    assert_eq!(v, vec![1, 2, 3, 4]);
    assert_eq!(AbstractVec::pop(&mut v), Some(4));
    assert_eq!(AbstractVec::remove(&mut v, 0), 1);
    assert_eq!(v, vec![2, 3]);
    AbstractVec::resize(&mut v, 4, 9);
    assert_eq!(v, vec![2, 3, 9, 9]);
    AbstractVec::truncate(&mut v, 1);
    assert_eq!(v, vec![2]);
    AbstractVec::truncate(&mut v, 5);
    assert_eq!(v, vec![2]);
    let mut e: Vec<i32> = Vec::new();
    assert_eq!(AbstractVec::pop(&mut e), None);
}

#[test]
fn near_zero_is_exact_for_integers() {
    assert!(0i32.is_near_zero());
    assert!(!1i32.is_near_zero());
    assert!(!(-1i64).is_near_zero());
    assert!(0usize.is_near_zero());
}

#[test]
fn unpackers_flatten_pairs() {
    let left = vec![((1, 2), 3), ((4, 5), 6)];
    let mut l = left.into_iter().unpack_left();
    assert_eq!(l.next(), Some((1, 2, 3)));
    assert_eq!(l.next_back(), Some((4, 5, 6)));
    assert_eq!(l.next(), None);

    let right = vec![(1, (2, 3))];
    let mut r = right.into_iter().unpack_right();
    assert_eq!(r.next(), Some((1, 2, 3)));
    assert_eq!(r.next(), None);
}

#[test]
fn mouse_enums_compare() {
    assert_ne!(MouseButton::Left, MouseButton::Right);
    assert!(MouseAction::Down < MouseAction::Up);
}

#[derive(Clone, Debug, PartialEq)]
struct Cells(Vec<i32>);

impl cpge::mem::FromOwned<Cells> for Cells {
    fn from_owned(owned: &Cells) -> &Self {
        owned
    }

    fn from_owned_mut(owned: &mut Cells) -> &mut Self {
        owned
    }
}

#[test]
fn owned_storage_is_kept() {
    let mut o: Owned<Cells, Cells> = Owned::new(Cells(vec![1, 2]));
    assert_eq!(o.to_inner(), &Cells(vec![1, 2]));
    o.to_inner_mut().0.push(3);
    assert_eq!(o.get(), &Cells(vec![1, 2, 3]));
    o.get_mut().0.pop();
    let copy = o.clone();
    assert_eq!(copy.into_inner(), Cells(vec![1, 2]));
    assert_eq!(o.into_inner(), Cells(vec![1, 2]));
}

#[test]
fn window_events_are_sorted() {
    assert_eq!(classify_event(WindowEventKind::KeyDown), EventClass::Key);
    assert_eq!(classify_event(WindowEventKind::Other), EventClass::Ignored);
    assert_eq!(
        classify_event(WindowEventKind::LeftMouseDown),
        EventClass::Mouse(MouseButton::Left, MouseAction::Down)
    );
    assert_eq!(
        classify_event(WindowEventKind::RightMouseDragged),
        EventClass::Mouse(MouseButton::Right, MouseAction::Dragged)
    );
    assert_eq!(
        classify_event(WindowEventKind::OtherMouseUp),
        EventClass::Mouse(MouseButton::Other, MouseAction::Up)
    );
    assert_eq!(
        classify_event(WindowEventKind::MouseMoved),
        EventClass::Mouse(MouseButton::Other, MouseAction::Moved)
    );
    assert_eq!(
        classify_event(WindowEventKind::MouseExited),
        EventClass::Mouse(MouseButton::Other, MouseAction::Exited)
    );
}

fn device(swapchain: bool, families: &[(bool, bool)], kind: DeviceKind) -> DeviceCandidate {
    DeviceCandidate {
        swapchain,
        queue_families: families.iter().map(|&(graphics, presents)| QueueFamily { graphics, presents }).collect(),
        kind,
    }
}

#[test]
fn device_choice_prefers_usable_gpus() {
    let candidates = vec![
        device(true, &[(true, true)], DeviceKind::Cpu),
        device(false, &[(true, true)], DeviceKind::DiscreteGpu),
        device(true, &[(true, false), (false, true), (true, true)], DeviceKind::IntegratedGpu),
        device(true, &[(true, true)], DeviceKind::IntegratedGpu),
        device(true, &[(true, false)], DeviceKind::DiscreteGpu),
    ];
    // the discrete GPUs are not usable; the first integrated one wins, with its third family
    assert_eq!(choose_device(&candidates), Some((2, 2)));
    assert_eq!(choose_device(&vec![device(true, &[(false, true)], DeviceKind::Cpu)]), None);
    assert_eq!(choose_device(&vec![]), None);
}

#[test]
fn cross_gives_pairs_in_lexicographic_order_then_none() {
    let mut c = Cross::new(vec!['a', 'b'].into_iter(), vec![1, 2, 3]);
    let mut pairs = Vec::new();
    while let Some(p) = c.next() {
        pairs.push(p);
    }
    assert_eq!(pairs, vec![('a', 1), ('a', 2), ('a', 3), ('b', 1), ('b', 2), ('b', 3)]);
    let mut none = Cross::new(Vec::<char>::new().into_iter(), vec![1]);
    assert_eq!(none.next(), None);
}

#[test]
fn keys_are_lowercased_in_ascii_only() {
    let key: Vec<char> = "AbZ1É[".chars().collect();
    let lower: String = lowercase_key(&key).into_iter().collect();
    assert_eq!(lower, "abz1É[");
    assert!(lowercase_key(&[]).is_empty());
}
