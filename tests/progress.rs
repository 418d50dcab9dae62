use progressive::meter::render_meter;
use progressive::progress::{progress, BAR_LENGTH, MIN_INTERVAL_NANOS};

fn frame(length: u8, count: usize, total: usize, nanos: u64) -> String {
    let mut out: Vec<u8> = Vec::new();
    render_meter(length, count, total, nanos, &mut out);
    String::from_utf8(out).unwrap()
}

fn drain<I: Iterator>(input: I, times: &[u64]) -> (Vec<I::Item>, String) {
    let mut p = progress(input);
    let mut out: Vec<u8> = Vec::new();
    let mut items = Vec::new();
    for &t in times {
        match p.next_at(t, &mut out) {
            Some(x) => items.push(x),
            None => break,
        }
    }
    (items, String::from_utf8(out).unwrap())
}

#[test]
fn full_frame_matches_documented_line() {
    assert_eq!(
        frame(15, 30, 30, 6_000_000_000),
        "\r[###############]  100.0%  30/30  [elapsed: 6.0s, left: 0.0s, 5.00 iter/s]"
    );
}

#[test]
fn partial_frame_rounds_each_figure() {
    assert_eq!(
        frame(15, 1, 3, 1_500_000_000),
        "\r[#####----------]   33.3%  1/3  [elapsed: 1.5s, left: 3.0s, 0.67 iter/s]"
    );
}

#[test]
fn halves_round_up() {
    assert_eq!(
        frame(15, 1, 16, 50_000_000),
        "\r[#--------------]    6.3%  1/16  [elapsed: 0.1s, left: 0.8s, 20.00 iter/s]"
    );
}

#[test]
fn zero_elapsed_time_gives_infinite_rate() {
    assert_eq!(
        frame(15, 1, 16, 0),
        "\r[#--------------]    6.3%  1/16  [elapsed: 0.0s, left: 0.0s, inf iter/s]"
    );
}

#[test]
fn zero_total_with_items_shows_infinity() {
    assert_eq!(
        frame(15, 5, 0, 2_000_000_000),
        "\r[###############]    inf%  5/0  [elapsed: 2.0s, left: 0.0s, 2.50 iter/s]"
    );
}

#[test]
fn nothing_counted_in_no_time_shows_not_a_number() {
    assert_eq!(
        frame(15, 0, 0, 0),
        "\r[---------------]    NaN%  0/0  [elapsed: 0.0s, left: NaNs, NaN iter/s]"
    );
}

#[test]
fn nothing_counted_yet_leaves_time_left_unbounded() {
    assert_eq!(
        frame(10, 0, 4, 1_000_000_000),
        "\r[----------]    0.0%  0/4  [elapsed: 1.0s, left: infs, 0.00 iter/s]"
    );
}

#[test]
fn large_figures_do_not_overflow() {
    let max = usize::MAX;
    let text = frame(15, max, max, u64::MAX);
    assert!(text.starts_with("\r[###############]  100.0%  "));
    assert!(text.contains(&format!("{}/{}", max, max)));
}

#[test]
fn items_pass_through_unchanged() {
    let input = vec![3, 1, 4, 1, 5, 9, 2, 6];
    let (items, _) = drain(input.clone().into_iter(), &[0; 20]);
    assert_eq!(items, input);
}

#[test]
fn five_items_end_with_count_five() {
    let (items, text) = drain(vec![1, 2, 3, 4, 5].into_iter(), &[0; 10]);
    assert_eq!(items.len(), 5);
    assert_eq!(
        text,
        "\r[###############]  100.0%  5/5  [elapsed: 0.0s, left: 0.0s, inf iter/s]\n"
    );
}

#[test]
fn empty_sequence_shows_zero_and_ends_the_line() {
    let (items, text) = drain(Vec::<u8>::new().into_iter(), &[0; 3]);
    assert!(items.is_empty());
    assert_eq!(
        text,
        "\r[---------------]    NaN%  0/0  [elapsed: 0.0s, left: NaNs, NaN iter/s]\n"
    );
}

#[test]
fn ten_items_without_delay_draw_only_the_last_frame() {
    let (items, text) = drain(0..10, &[0; 12]);
    assert_eq!(items, (0..10).collect::<Vec<i32>>());
    assert_eq!(
        text,
        "\r[###############]  100.0%  10/10  [elapsed: 0.0s, left: 0.0s, inf iter/s]\n"
    );
    assert_eq!(text.matches('\n').count(), 1);
}

#[test]
fn fast_pulls_skip_frames() {
    let times: Vec<u64> = (0..12).map(|k| k * 100_000_000).collect();
    let (_, text) = drain(0..10, &times);
    assert_eq!(text.matches('\r').count(), 6);
    assert_eq!(text.matches('\n').count(), 1);
    let frames: Vec<&str> = text.split('\r').filter(|f| !f.is_empty()).collect();
    assert!(frames[0].contains("  2/10  "));
    assert!(frames[1].contains("  4/10  "));
    assert!(frames[2].contains("  6/10  "));
    assert!(frames[3].contains("  8/10  "));
    assert!(frames[4].contains("  10/10  "));
    assert!(frames[5].contains("  10/10  "));
    assert!(frames[5].ends_with('\n'));
}

#[test]
fn frame_waits_for_more_than_the_interval() {
    let mut p = progress(0..3);
    let mut out: Vec<u8> = Vec::new();
    assert_eq!(p.next_at(MIN_INTERVAL_NANOS, &mut out), Some(0));
    assert!(out.is_empty());
    assert_eq!(p.next_at(MIN_INTERVAL_NANOS + 1, &mut out), Some(1));
    let text = String::from_utf8(out).unwrap();
    assert_eq!(
        text,
        "\r[#####----------]   33.3%  1/3  [elapsed: 0.2s, left: 0.3s, 6.67 iter/s]"
    );
}

#[test]
fn count_grows_by_one_per_pull() {
    let mut p = progress(vec!['a', 'b'].into_iter());
    let mut out: Vec<u8> = Vec::new();
    assert_eq!(p.count(), 0);
    assert_eq!(p.next_at(0, &mut out), Some('a'));
    assert_eq!(p.count(), 1);
    assert_eq!(p.next_at(0, &mut out), Some('b'));
    assert_eq!(p.count(), 2);
    assert_eq!(p.next_at(0, &mut out), None);
    assert_eq!(p.count(), 3);
    let text = String::from_utf8(out).unwrap();
    assert!(text.contains("  2/2  "));
}

#[test]
fn total_is_taken_once() {
    let mut p = progress(0..7);
    assert_eq!(p.total(), 7);
    assert_eq!(p.size_hint(), (7, Some(7)));
    let mut out: Vec<u8> = Vec::new();
    p.next_at(0, &mut out);
    p.next_at(0, &mut out);
    assert_eq!(p.total(), 7);
    assert_eq!(p.size_hint(), (5, Some(5)));
}

#[test]
fn unknown_length_gives_zero_total() {
    let p = progress((0..7).filter(|x| x % 2 == 0));
    assert_eq!(p.total(), 0);
}

#[test]
fn clock_driven_pulls_pass_items_and_end_the_line() {
    let mut p = progress(vec![10, 20].into_iter());
    let mut out: Vec<u8> = Vec::new();
    assert_eq!(p.next(&mut out), Some(10));
    assert_eq!(p.next(&mut out), Some(20));
    assert_eq!(p.next(&mut out), None);
    let text = String::from_utf8(out).unwrap();
    assert!(text.ends_with(" iter/s]\n"));
    assert!(text.contains("  2/2  "));
    assert_eq!(BAR_LENGTH, 15);
}

#[test]
fn hint_lower_bound_becomes_the_total() {
    let p = progressive::progress::progress_from_hint(0..10, (0, Some(10)));
    assert_eq!(p.total(), 0);
    assert_eq!(p.count(), 0);
    let q = progressive::progress::progress_from_hint(0..10, (4, None));
    assert_eq!(q.total(), 4);
}

#[test]
fn filtered_range_takes_lower_bound_not_upper() {
    let input = (0..10).filter(|x| x % 2 == 0);
    assert_eq!(input.size_hint(), (0, Some(10)));
    let mut p = progress(input);
    assert_eq!(p.total(), 0);
    let mut out: Vec<u8> = Vec::new();
    let mut items = Vec::new();
    while let Some(x) = p.next_at(0, &mut out) {
        items.push(x);
    }
    assert_eq!(items, vec![0, 2, 4, 6, 8]);
    let text = String::from_utf8(out).unwrap();
    assert_eq!(
        text,
        "\r[###############]    inf%  5/0  [elapsed: 0.0s, left: 0.0s, inf iter/s]\n"
    );
}

#[test]
fn range_of_ten_starts_with_total_ten_and_count_zero() {
    let p = progress(0..10);
    assert_eq!(p.total(), 10);
    assert_eq!(p.count(), 0);
}
