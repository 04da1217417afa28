use overclock::stages::{Chunker, Fanout, Limiter, Outlet, Window};

#[test]
fn chunker_emits_full_batches_only() {
    let mut c = Chunker::new(3);
    let mut out = Vec::new();
    for x in 1..=8 {
        if let Some(b) = c.push(x) {
            out.push(b);
        }
    }
    assert_eq!(out, vec![vec![1, 2, 3], vec![4, 5, 6]]);
    // size 0 never completes a batch
    let mut z = Chunker::new(0);
    assert_eq!(z.push(1), None);
    assert_eq!(z.push(2), None);
}

#[test]
fn window_keeps_the_last_items() {
    let mut w = Window::new(2);
    let seen: Vec<Vec<i32>> = (1..=4).map(|x| w.push(x).into_iter().collect()).collect();
    assert_eq!(seen, vec![vec![1], vec![1, 2], vec![2, 3], vec![3, 4]]);
    let mut w0 = Window::new(0);
    assert!(w0.push(5).is_empty());
}

#[test]
fn limiter_stops_at_the_limit() {
    let mut l = Limiter::new(2);
    assert!(l.wires());
    assert!(!l.reached());
    assert!(!l.passed());
    assert!(!l.reached());
    assert!(l.passed());
    assert!(l.reached());
    assert!(!Limiter::new(0).wires());
    assert!(Limiter::new(0).reached());
}

fn run(mut f: Fanout, n: usize, m: usize, b: usize) -> (usize, usize, usize) {
    let (mut pulled, mut mains, mut branches) = (0, 0, 0);
    for k in 0..n {
        pulled += 1;
        let mut next = f.first();
        while let Some(o) = next {
            let ok = match o {
                Outlet::Main => k < m,
                Outlet::Branch => k < b,
            };
            if ok {
                match o {
                    Outlet::Main => mains += 1,
                    Outlet::Branch => branches += 1,
                }
            }
            next = f.sent(o, ok);
        }
        if !f.pulls() {
            break;
        }
    }
    (pulled, mains, branches)
}

#[test]
fn broadcast_runs_while_either_output_is_open() {
    // main closes after 2 items, branch after 5, 10 items offered
    assert_eq!(run(Fanout::broadcast(), 10, 2, 5), (6, 2, 5));
    assert_eq!(run(Fanout::broadcast(), 3, 10, 10), (3, 3, 3));
    assert_eq!(run(Fanout::broadcast(), 10, 0, 0), (1, 0, 0));
}

#[test]
fn tee_follows_the_main_output() {
    // main closes after 2 items: the branch hears only those, the stage stops after 3 pulls
    assert_eq!(run(Fanout::tee(), 10, 2, 5), (3, 2, 2));
    assert_eq!(run(Fanout::tee(), 10, 5, 1), (6, 5, 1));
    assert_eq!(run(Fanout::tee(), 3, 10, 10), (3, 3, 3));
}
