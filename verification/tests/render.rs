use smallpt::math::Real;
use smallpt::render::{band, bands, before_middle, machine_bands, Band};

fn num(v: f64) -> Real {
    Real::from_bits(v.to_bits())
}

#[test]
fn before_middle_below_one() {
    assert!(before_middle(num(0.0)));
    assert!(before_middle(num(0.999_999)));
    assert!(!before_middle(num(1.0)));
    assert!(!before_middle(num(1.999_999)));
}

#[test]
fn bands_share_out_an_even_height() {
    assert_eq!(
        bands(1024, 4),
        vec![
            Band { bot: 0, top: 256 },
            Band { bot: 256, top: 512 },
            Band { bot: 512, top: 768 },
            Band { bot: 768, top: 1024 },
        ]
    );
}

#[test]
fn bands_leave_the_remainder_out() {
    assert_eq!(
        bands(10, 3),
        vec![Band { bot: 0, top: 3 }, Band { bot: 3, top: 6 }, Band { bot: 6, top: 9 }]
    );
    assert_eq!(bands(7, 2), vec![Band { bot: 0, top: 3 }, Band { bot: 3, top: 6 }]);
}

#[test]
fn bands_are_empty_where_workers_outnumber_rows() {
    assert_eq!(bands(3, 4), vec![Band { bot: 0, top: 0 }; 4]);
    assert_eq!(bands(0, 2), vec![Band { bot: 0, top: 0 }; 2]);
}

#[test]
fn one_worker_has_all_rows() {
    assert_eq!(bands(5, 1), vec![Band { bot: 0, top: 5 }]);
}

#[test]
fn band_is_the_entry_of_bands() {
    for workers in 1..9usize {
        for height in 0..40usize {
            let plan = bands(height, workers);
            assert_eq!(plan.len(), workers);
            for t in 0..workers {
                assert_eq!(band(height, workers, t), plan[t]);
                assert_eq!(plan[t].bot, (height / workers) * t);
                assert_eq!(plan[t].top, (height / workers) * (t + 1));
            }
        }
    }
}

#[test]
fn every_scheduled_row_has_one_worker() {
    for workers in 1..9usize {
        for height in 0..40usize {
            let plan = bands(height, workers);
            let scheduled = height - height % workers;
            for y in 0..height {
                let owners = plan.iter().filter(|b| b.bot <= y && y < b.top).count();
                assert_eq!(owners, if y < scheduled { 1 } else { 0 });
            }
        }
    }
}

#[test]
fn machine_bands_has_a_band_for_each_processor() {
    let plan = machine_bands(1024);
    assert!(!plan.is_empty());
    assert_eq!(plan.len(), num_cpus::get());
    assert_eq!(plan, bands(1024, plan.len()));
}
