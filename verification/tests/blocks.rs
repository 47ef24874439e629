use timeblocks::blocks::{plan_blocks, split_minutes};

#[test]
fn short_task_stays_whole() {
    assert_eq!(split_minutes(45), vec![45]);
    assert_eq!(split_minutes(60), vec![60]);
    assert_eq!(split_minutes(0), vec![0]);
    assert_eq!(split_minutes(-30), vec![-30]);
}

#[test]
fn medium_task_splits_in_two() {
    assert_eq!(split_minutes(61), vec![30, 31]);
    assert_eq!(split_minutes(90), vec![45, 45]);
    assert_eq!(split_minutes(180), vec![90, 90]);
}

fn greedy(est: i64) -> Vec<i64> {
    let mut left = est;
    let mut v = vec![];
    while left > 0 {
        let chunk = if left >= 120 { 120 } else if left >= 90 { 90 } else { left };
        v.push(chunk);
        left -= chunk;
    }
    v
}

#[test]
fn long_task_keeps_greedy_blocks_that_fit() {
    assert_eq!(split_minutes(210), vec![120, 90]);
    assert_eq!(split_minutes(240), vec![120, 120]);
    assert_eq!(split_minutes(330), vec![120, 120, 90]);
    assert_eq!(split_minutes(360), vec![120, 120, 120]);
    assert_eq!(split_minutes(450), vec![120, 120, 120, 90]);
}

#[test]
fn long_task_rebalances_short_remainders() {
    assert_eq!(split_minutes(181), vec![91, 90]);
    assert_eq!(split_minutes(200), vec![100, 100]);
    assert_eq!(split_minutes(241), vec![81, 80, 80]);
    assert_eq!(split_minutes(250), vec![84, 83, 83]);
    assert_eq!(split_minutes(300), vec![100, 100, 100]);
}

#[test]
fn blocks_add_up_to_estimate() {
    for est in -5i64..3000 {
        let blocks = split_minutes(est);
        assert_eq!(blocks.iter().sum::<i64>(), est, "estimate {}", est);
        if est > 180 {
            let g = greedy(est);
            if g.iter().all(|b| *b >= 90) {
                assert_eq!(blocks, g);
            } else {
                let k = blocks.len() as i64;
                assert!(120 * (k - 1) < est && est <= 120 * k);
                let lo = *blocks.iter().min().unwrap();
                let hi = *blocks.iter().max().unwrap();
                assert!(hi - lo <= 1);
            }
            assert!(blocks.len() >= 2);
            assert!(blocks.iter().all(|b| *b >= 60 && *b <= 120));
            let fits = (1..=est / 90).any(|j| 90 * j <= est && est <= 120 * j);
            if fits {
                assert!(blocks.iter().all(|b| *b >= 90), "estimate {}", est);
            }
        }
    }
}

#[test]
fn blocks_are_titled_in_order() {
    let blocks = plan_blocks(250);
    let titles: Vec<&str> = blocks.iter().map(|b| b.title.as_str()).collect();
    assert_eq!(titles, vec!["Block 1", "Block 2", "Block 3"]);
    let minutes: Vec<i64> = blocks.iter().map(|b| b.minutes).collect();
    assert_eq!(minutes, vec![84, 83, 83]);
    let many = plan_blocks(1500);
    assert_eq!(many.len(), 13);
    assert_eq!(many[4].minutes, 116);
    assert_eq!(many[5].minutes, 115);
    assert_eq!(many[12].title, "Block 13");
    assert_eq!(many[12].minutes, 115);
}
