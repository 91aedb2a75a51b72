use dlx::solve;
use dlx::Matrix;

#[test]
fn sample_problem() {
    let f = false;
    let t = true;

    let mut m = Matrix::new(7);
    m.add_row(&[f, f, t, f, t, t, f]);
    m.add_row(&[t, f, f, t, f, f, t]);
    m.add_row(&[f, t, t, f, f, t, f]);
    m.add_row(&[t, f, f, t, f, f, f]);
    m.add_row(&[f, t, f, f, f, f, t]);
    m.add_row(&[f, f, f, t, t, f, t]);

    let solutions = solve(m);

    assert_eq!(solutions, 1);
}

#[test]
fn exhaustive_test() {
    for bits in 0u32..=0b1111_1111_1111_1111 {
        let rows: [u32; 4] = [
            bits & 0b1111,
            (bits >> 4) & 0b1111,
            (bits >> 8) & 0b1111,
            (bits >> 12) & 0b1111,
        ];
        if rows.iter().any(|&row| row == 0) {
            continue;
        }

        let brute_force = {
            let mut n_solutions: u32 = 0;
            for mask in 0u32..=0b1111 {
                let mut or: u32 = 0;
                let mut n_ones: u32 = 0;
                for (i, &row) in rows.iter().enumerate() {
                    if mask & (1 << i) != 0 {
                        or |= row;
                        n_ones += row.count_ones()
                    }
                }
                if or == 0b1111 && n_ones == 4 {
                    n_solutions += 1;
                }
            }
            n_solutions
        };

        let dlx_count = {
            let mut m = Matrix::new(4);
            for row_bits in rows.iter() {
                let mut row = [false; 4];
                for (i, slot) in row.iter_mut().enumerate() {
                    *slot = row_bits & (1 << i) != 0;
                }
                m.add_row(&row);
            }
            solve(m)
        };
        assert_eq!(brute_force as usize, dlx_count)
    }
}

#[test]
fn zero_columns_counts_the_empty_cover() {
    let m = Matrix::new(0);
    assert_eq!(solve(m), 1);
}

#[test]
fn empty_column_prunes_without_solutions() {
    // Column 2 never gains a cell, so no row subset can cover it: the search
    // must pick it, find nothing, and come back with zero.
    let mut m = Matrix::new(2);
    m.add_row(&[true, false]);
    m.add_row(&[true, false]);
    assert_eq!(solve(m), 0);
}

#[test]
fn counts_two_covers() {
    let mut m = Matrix::new(2);
    m.add_row(&[true, false]);
    m.add_row(&[false, true]);
    m.add_row(&[true, true]);
    assert_eq!(solve(m), 2);
}

#[test]
fn solve_is_deterministic_with_ties() {
    let build = || {
        let mut m = Matrix::new(4);
        m.add_row(&[true, true, false, false]);
        m.add_row(&[false, false, true, true]);
        m.add_row(&[true, false, true, false]);
        m.add_row(&[false, true, false, true]);
        m
    };
    let first = solve(build());
    let second = solve(build());
    assert_eq!(first, second);
    assert_eq!(first, 2);
}
