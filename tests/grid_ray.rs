use honeycomb::{AxisStep, Chunk, GridHit, GridRay, Normal, Voxel};

const ONE: u64 = 1 << 16;

fn still() -> AxisStep {
    AxisStep { step: 0, t_max: 0, t_delta: 0 }
}

fn moving(step: i8, t_max: u64, t_delta: u64) -> AxisStep {
    AxisStep { step, t_max, t_delta }
}

fn single_block_chunk() -> Chunk {
    let mut c = Chunk::new();
    c.set_block(5, 5, 5, 1);
    c
}

#[test]
fn ray_along_z_hits_single_block() {
    let chunk = single_block_chunk();
    let ray = GridRay {
        start: Voxel { x: 5, y: 5, z: -10 },
        x: still(),
        y: still(),
        z: moving(1, ONE, ONE),
        max_t: 1000 * ONE,
    };
    let hit = ray.march(&chunk).expect("the ray meets the block");
    assert_eq!(hit.t, 15 * ONE);
    assert_eq!(hit.block, 1);
    assert_eq!(hit.voxel, Voxel { x: 5, y: 5, z: 5 });
    assert_eq!(hit.normal, Normal { x: 0, y: 0, z: -1 });
}

#[test]
fn ray_aimed_away_misses() {
    let chunk = single_block_chunk();
    let ray = GridRay {
        start: Voxel { x: 5, y: 5, z: 4 },
        x: still(),
        y: still(),
        z: moving(-1, ONE / 2, ONE),
        max_t: 1000 * ONE,
    };
    assert_eq!(ray.march(&chunk), None);
}

#[test]
fn ray_ending_before_block_misses() {
    let chunk = single_block_chunk();
    let ray = GridRay {
        start: Voxel { x: 5, y: 5, z: -10 },
        x: still(),
        y: still(),
        z: moving(1, ONE, ONE),
        max_t: 15 * ONE,
    };
    assert_eq!(ray.march(&chunk), None);
    let longer = GridRay { max_t: 15 * ONE + 1, ..ray };
    assert_eq!(longer.march(&chunk).map(|h| h.t), Some(15 * ONE));
}

#[test]
fn ray_with_zero_component_finds_block_on_other_axis() {
    let chunk = single_block_chunk();
    let ray = GridRay {
        start: Voxel { x: -3, y: 5, z: 5 },
        x: moving(1, ONE / 2, ONE),
        y: still(),
        z: still(),
        max_t: 1000 * ONE,
    };
    let hit = ray.march(&chunk).expect("the ray meets the block");
    assert_eq!(hit.voxel, Voxel { x: 5, y: 5, z: 5 });
    assert_eq!(hit.normal, Normal { x: -1, y: 0, z: 0 });
    assert_eq!(hit.t, ONE / 2 + 7 * ONE);
    assert_eq!(hit.block, 1);
}

#[test]
fn ray_with_zero_component_stays_on_its_line() {
    let chunk = single_block_chunk();
    let ray = GridRay {
        start: Voxel { x: -3, y: 6, z: 5 },
        x: moving(1, ONE / 2, ONE),
        y: AxisStep { step: 0, t_max: 1, t_delta: 1 },
        z: still(),
        max_t: 1000 * ONE,
    };
    assert_eq!(ray.march(&chunk), None);
}

#[test]
fn ties_cross_x_before_y() {
    let mut chunk = Chunk::new();
    chunk.set_block(1, 0, 0, 3);
    let ray = GridRay {
        start: Voxel { x: 0, y: 0, z: 0 },
        x: moving(1, 10, 10),
        y: moving(1, 10, 10),
        z: still(),
        max_t: 100,
    };
    let hit = ray.march(&chunk).expect("x is crossed first");
    assert_eq!(
        hit,
        GridHit {
            voxel: Voxel { x: 1, y: 0, z: 0 },
            t: 10,
            normal: Normal { x: -1, y: 0, z: 0 },
            block: 3,
        }
    );
}

#[test]
fn diagonal_ray_visits_voxels_in_time_order() {
    let mut chunk = Chunk::new();
    chunk.set_block(2, 1, 0, 9);
    // y boundaries come every 3 units starting at 2, x boundaries every 2 starting at 1
    let ray = GridRay {
        start: Voxel { x: 0, y: 0, z: 0 },
        x: moving(1, 1, 2),
        y: moving(1, 2, 3),
        z: still(),
        max_t: 50,
    };
    // x at 1 -> (1,0); y at 2 -> (1,1); x at 3 -> (2,1)
    let hit = ray.march(&chunk).expect("the ray meets the block");
    assert_eq!(hit.voxel, Voxel { x: 2, y: 1, z: 0 });
    assert_eq!(hit.t, 3);
    assert_eq!(hit.normal, Normal { x: -1, y: 0, z: 0 });
    assert_eq!(hit.block, 9);
}

#[test]
fn negative_step_reports_positive_normal() {
    let chunk = single_block_chunk();
    let ray = GridRay {
        start: Voxel { x: 5, y: 9, z: 5 },
        x: still(),
        y: moving(-1, 3, 4),
        z: still(),
        max_t: 1000,
    };
    let hit = ray.march(&chunk).expect("the ray meets the block");
    assert_eq!(hit.voxel, Voxel { x: 5, y: 5, z: 5 });
    assert_eq!(hit.t, 3 + 3 * 4);
    assert_eq!(hit.normal, Normal { x: 0, y: 1, z: 0 });
}

#[test]
fn solid_start_voxel_hits_at_time_zero() {
    let chunk = single_block_chunk();
    let ray = GridRay {
        start: Voxel { x: 5, y: 5, z: 5 },
        x: moving(1, ONE, ONE),
        y: still(),
        z: still(),
        max_t: ONE,
    };
    let hit = ray.march(&chunk).expect("the start voxel is solid");
    assert_eq!(hit.t, 0);
    assert_eq!(hit.normal, Normal { x: 0, y: 0, z: 0 });
}

#[test]
fn zero_length_ray_reports_nothing() {
    let chunk = single_block_chunk();
    let ray = GridRay {
        start: Voxel { x: 5, y: 5, z: 5 },
        x: moving(1, ONE, ONE),
        y: still(),
        z: still(),
        max_t: 0,
    };
    assert_eq!(ray.march(&chunk), None);
}

#[test]
fn ray_without_motion_checks_only_its_start() {
    let chunk = single_block_chunk();
    let ray = GridRay { start: Voxel { x: 4, y: 5, z: 5 }, x: still(), y: still(), z: still(), max_t: 1000 };
    assert_eq!(ray.march(&chunk), None);
}
