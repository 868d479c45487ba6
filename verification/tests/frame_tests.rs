use voxel_core::frame::Phase;

#[test]
fn a_frame_runs_its_phases_in_order() {
    let order = [
        Phase::Events,
        Phase::Cursor,
        Phase::Messages,
        Phase::Camera,
        Phase::Stream,
        Phase::Pending,
        Phase::Render,
        Phase::Accounting,
    ];
    let mut p = Phase::first();
    for (i, &want) in order.iter().enumerate() {
        assert_eq!(p, want);
        assert_eq!(p.index() as usize, i);
        assert_eq!(p.ends_frame(), i == 7);
        p = p.next();
    }
    assert_eq!(p, Phase::first());
}
