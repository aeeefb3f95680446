use adder_blocks::block::{Block, BlockError};
use adder_blocks::cube::Cube;
use adder_blocks::event::{Coord, Event, EventCoordless};
use adder_blocks::zigzag::{gen_zigzag_order, ZigZag};
use adder_blocks::{BLOCK_AREA, BLOCK_SIZE_BIG};

fn events_for_channel(c: u8) -> Vec<Event> {
    let mut events = Vec::new();
    for y in 0..BLOCK_SIZE_BIG {
        for x in 0..BLOCK_SIZE_BIG {
            events.push(Event {
                coord: Coord {
                    y: y as u16,
                    x: x as u16,
                    c: Some(c),
                },
                d: 0,
                delta_t: 0,
            });
        }
    }
    events
}

fn sample_event() -> Event {
    Event {
        coord: Coord {
            x: 0,
            y: 0,
            c: Some(0),
        },
        d: 7,
        delta_t: 100,
    }
}

#[test]
fn test_zig_zag() {
    let mut order = gen_zigzag_order();
    order.sort_unstable();
    let len = order.len();
    let mut unique = order.clone();
    unique.dedup();
    assert_eq!(unique.len(), len);
    assert_eq!(unique[0], 0);
    assert_eq!(
        unique[unique.len() - 1],
        (BLOCK_SIZE_BIG * BLOCK_SIZE_BIG - 1) as u16
    );
}

#[test]
fn test_create_cube() {
    let cube = Cube::new(0, 0, 0);
    assert_eq!(cube.blocks_r.len(), 1);
    assert_eq!(cube.blocks_g.len(), 1);
    assert_eq!(cube.blocks_b.len(), 1);
}

#[test]
fn test_set_event() {
    let mut cube = Cube::new(0, 0, 0);
    let event = sample_event();

    assert!(cube.set_event(event).is_ok());
    assert_eq!(cube.block_idx_map_r[0], 1);
    assert_eq!(cube.blocks_r[0].fill_count, 1);
    assert!(!cube.blocks_r[0].is_filled());
}

#[test]
fn test_set_many_events() {
    let mut cube = Cube::new(0, 0, 0);
    let events = events_for_channel(0);

    for event in events.iter() {
        assert!(cube.set_event(event.clone()).is_ok());
    }
    assert_eq!(cube.block_idx_map_r[0], 1);
    assert_eq!(
        cube.blocks_r[0].fill_count as usize,
        BLOCK_SIZE_BIG * BLOCK_SIZE_BIG
    );

    assert!(cube.blocks_r[0].is_filled());
    assert!(!cube.blocks_g[0].is_filled());
    assert!(!cube.blocks_b[0].is_filled());

    let events = events_for_channel(1);

    for event in events.iter() {
        assert!(cube.set_event(event.clone()).is_ok());
    }
    assert!(cube.blocks_r[0].is_filled());
    assert!(cube.blocks_g[0].is_filled());
    assert!(!cube.blocks_b[0].is_filled());

    let events = events_for_channel(2);

    for event in events.iter() {
        assert!(cube.set_event(event.clone()).is_ok());
    }

    assert!(cube.blocks_r[0].is_filled());
    assert!(cube.blocks_g[0].is_filled());
    assert!(cube.blocks_b[0].is_filled());

    assert_eq!(cube.blocks_r.len(), 1);
    assert_eq!(cube.blocks_g.len(), 1);
    assert_eq!(cube.blocks_b.len(), 1);

    assert!(cube.set_event(sample_event()).is_ok());

    assert_eq!(cube.blocks_r.len(), 2);
    assert_eq!(cube.blocks_g.len(), 1);
    assert_eq!(cube.blocks_b.len(), 1);
}

fn zig_zag_iter(cube: &mut Cube, events: Vec<Event>) -> Vec<EventCoordless> {
    for event in events.iter() {
        assert!(cube.set_event(event.clone()).is_ok());
    }

    let order = gen_zigzag_order();
    let mut zigzag_events = Vec::new();
    let mut zigzag = ZigZag::new(&cube.blocks_r[0], &order);
    for _y in 0..BLOCK_SIZE_BIG {
        for _x in 0..BLOCK_SIZE_BIG {
            let event = zigzag.next().unwrap().unwrap();
            zigzag_events.push(event);
        }
    }

    zigzag_events
}

#[test]
fn test_zigzag_iter() {
    let mut cube = Cube::new(0, 0, 0);
    let events = events_for_channel(0);

    let zigzag_events = zig_zag_iter(&mut cube, events.clone());
    assert_eq!(zigzag_events.len(), BLOCK_SIZE_BIG * BLOCK_SIZE_BIG);
    assert_eq!(zigzag_events[0].d, events[0].d);
    let delta_t_0 = zigzag_events[0].delta_t;
    let delta_t_1 = events[0].delta_t;
    assert_eq!(delta_t_0, delta_t_1);

    assert_eq!(zigzag_events[1].d, events[1].d);
    let delta_t_0 = zigzag_events[1].delta_t;
    let delta_t_1 = events[1].delta_t;
    assert_eq!(delta_t_0, delta_t_1);

    assert_eq!(
        zigzag_events[BLOCK_SIZE_BIG * BLOCK_SIZE_BIG - 1].d,
        events[BLOCK_SIZE_BIG * BLOCK_SIZE_BIG - 1].d
    );
    let delta_t_0 = zigzag_events[BLOCK_SIZE_BIG * BLOCK_SIZE_BIG - 1].delta_t;
    let delta_t_1 = events[BLOCK_SIZE_BIG * BLOCK_SIZE_BIG - 1].delta_t;
    assert_eq!(delta_t_0, delta_t_1);
}

#[test]
fn test_zigzag_order_prefix() {
    // First steps of the sweep on a 64-wide block: (0,0), (0,1), (1,0),
    // (2,0), (1,1), (0,2).
    let order = gen_zigzag_order();
    assert_eq!(order[0], 0);
    assert_eq!(order[1], 1);
    assert_eq!(order[2], 64);
    assert_eq!(order[3], 128);
    assert_eq!(order[4], 65);
    assert_eq!(order[5], 2);
    assert_eq!(order[BLOCK_AREA - 1], (BLOCK_AREA - 1) as u16);
}

#[test]
fn test_zigzag_iter_past_end() {
    let cube = Cube::new(0, 0, 0);
    let order = gen_zigzag_order();
    let mut zigzag = ZigZag::new(&cube.blocks_r[0], &order);
    for _ in 0..BLOCK_AREA {
        assert!(zigzag.next().is_some());
    }
    assert!(zigzag.next().is_none());
}

#[test]
fn test_block_duplicate_slot_rejected() {
    let mut block = Block::new();
    let event = sample_event();
    assert!(block.set_event(&event, 3).is_ok());
    assert_eq!(block.fill_count, 1);

    let second = Event {
        coord: event.coord,
        d: 9,
        delta_t: 5,
    };
    let err = block.set_event(&second, 3);
    assert!(matches!(err, Err(BlockError::AlreadyExists { idx: 3 })));
    // The stored event and the fill count are unchanged.
    assert_eq!(block.fill_count, 1);
    assert_eq!(block.events[3], Some(EventCoordless { d: 7, delta_t: 100 }));
    assert!(block.set_event(&second, 4).is_ok());
    assert_eq!(block.fill_count, 2);
}

#[test]
fn test_block_fill_count() {
    let mut block = Block::new();
    let event = sample_event();
    for idx in 0..BLOCK_AREA {
        assert!(!block.is_filled());
        assert!(block.set_event(&event, idx).is_ok());
    }
    assert!(block.is_filled());
    assert_eq!(block.fill_count as usize, BLOCK_AREA);
}

#[test]
fn test_cube_growth_per_same_slot_event() {
    let mut cube = Cube::new(0, 0, 0);
    for n in 1..=5usize {
        assert!(cube.set_event(sample_event()).is_ok());
        assert_eq!(cube.blocks_r.len(), n);
        assert_eq!(cube.blocks_g.len(), 1);
        assert_eq!(cube.blocks_b.len(), 1);
        assert_eq!(cube.block_idx_map_r[0], n);
    }
}

#[test]
fn test_cube_monochrome_event_routes_to_channel_zero() {
    let mut cube = Cube::new(0, 0, 0);
    let event = Event {
        coord: Coord {
            x: 2,
            y: 1,
            c: None,
        },
        d: 4,
        delta_t: 8,
    };
    assert!(cube.set_event(event).is_ok());
    assert_eq!(cube.blocks_r[0].fill_count, 1);
    assert_eq!(
        cube.blocks_r[0].events[BLOCK_SIZE_BIG + 2],
        Some(EventCoordless { d: 4, delta_t: 8 })
    );
    assert_eq!(cube.blocks_g[0].fill_count, 0);
    assert_eq!(cube.blocks_b[0].fill_count, 0);
}
