use sint::lcg::{IPv4Iterator, Lcg};
use std::collections::HashSet;

#[test]
fn lcg_enumeration_fixed_parameters() {
    let mut g = Lcg { state: 1, a: 1664525, c: 1013904223 };
    assert_eq!(g.rand(), 1015568748);
    assert_eq!(g.rand(), 1586005467);
    assert_eq!(g.rand(), 2165703038);
    assert_eq!(g.rand(), 3027450565);
    assert_eq!(g.rand(), 217083232);
    assert_eq!(g.rand(), 1587069247);
}

#[test]
fn lcg_next_stops_at_zero() {
    // With a = 1 and c = 1 the state counts up; start just below the wrap
    // so the sentinel is reached quickly.
    let mut g = Lcg { state: u32::MAX - 2, a: 1, c: 1 };
    assert_eq!(g.next(), Some(u32::MAX - 1));
    assert_eq!(g.next(), Some(u32::MAX));
    assert_eq!(g.next(), None);
}

#[test]
fn generator_prefix_is_distinct() {
    let mut it = IPv4Iterator::new(443);
    let mut seen: HashSet<u32> = HashSet::new();
    for _ in 0..10000 {
        let p = it.next().expect("the sequence is far from its end");
        assert!(p.port == 443);
        assert!(p.ip != 0);
        assert!(seen.insert(p.ip), "an address repeated early");
    }
}

#[test]
fn generator_parameters_have_full_period_shape() {
    let it = IPv4Iterator::new(80);
    assert_eq!(it.lcg.state, 1);
    assert_eq!(it.lcg.c, 1);
    assert_eq!(it.lcg.a % 4, 1);
}
