use q2_proto::objects::{parse_baseline, parse_entity_bits, DeltaEntity, EntityStateBits};
use q2_proto::ClientEvent;

fn has(bits: u32, b: EntityStateBits) -> bool {
    bits & b.mask() != 0
}

fn push_le(out: &mut Vec<u8>, v: u32, width: usize) {
    for k in 0..width {
        out.push(((v >> (8 * k)) & 0xFF) as u8);
    }
}

fn wide(bits: u32, lo: EntityStateBits, hi: EntityStateBits) -> Option<usize> {
    match (has(bits, lo), has(bits, hi)) {
        (true, true) => Some(4),
        (true, false) => Some(1),
        (false, true) => Some(2),
        _ => None,
    }
}

/// A synthetic encoder: the header for `bits` (continuation bits added as
/// needed), the entity number, then every announced field with a value
/// derived from `seed`. Returns the bytes and the expected entity.
fn encode(bits28: u32, seed: u32) -> (Vec<u8>, DeltaEntity) {
    let mut bits = bits28 & 0x0F7F_7F7F;
    if bits & 0xFF00_0000 != 0 {
        bits |= 0x0080_0000;
    }
    if bits & 0xFFFF_0000 != 0 {
        bits |= 0x0000_8000;
    }
    if bits & 0xFFFF_FF00 != 0 {
        bits |= 0x0000_0080;
    }
    let mut out = Vec::new();
    let nbytes = if bits & 0x0080_0000 != 0 { 4 } else if bits & 0x8000 != 0 { 3 } else if bits & 0x80 != 0 { 2 } else { 1 };
    push_le(&mut out, bits, nbytes);
    let number: i16 = if has(bits, EntityStateBits::NUMBER16) {
        push_le(&mut out, 0xFFFE, 2);
        -2
    } else {
        out.push(0x85);
        -123
    };
    let mut v = seed;
    let mut next = |width: usize| -> u32 {
        v = v.wrapping_mul(1103515245).wrapping_add(12345);
        let x = v >> 3;
        if width == 4 { x } else { x & ((1u32 << (8 * width)) - 1) }
    };
    let mut d = DeltaEntity {
        number,
        model_index: None, model_index2: None, model_index3: None, model_index4: None,
        frame: None, skin: None, effects: None, render_fx: None,
        origin0: None, origin1: None, origin2: None,
        angle0: None, angle1: None, angle2: None,
        old_origin0: None, old_origin1: None, old_origin2: None,
        sound: None, event: 0, solid: None,
    };
    for (bit, slot) in [
        (EntityStateBits::MODEL, 0), (EntityStateBits::MODEL2, 1),
        (EntityStateBits::MODEL3, 2), (EntityStateBits::MODEL4, 3),
    ] {
        if has(bits, bit) {
            let x = next(1);
            out.push(x as u8);
            let m = Some(x as u8);
            match slot { 0 => d.model_index = m, 1 => d.model_index2 = m, 2 => d.model_index3 = m, _ => d.model_index4 = m }
        }
    }
    let f8 = has(bits, EntityStateBits::FRAME8);
    let f16 = has(bits, EntityStateBits::FRAME16);
    if f8 && f16 {
        out.push(0xAB);
        let x = next(2);
        push_le(&mut out, x, 2);
        d.frame = Some(x as u16 as i16);
    } else if f8 {
        let x = next(1);
        out.push(x as u8);
        d.frame = Some(x as i16);
    } else if f16 {
        let x = next(2);
        push_le(&mut out, x, 2);
        d.frame = Some(x as u16 as i16);
    }
    for (lo, hi, slot) in [
        (EntityStateBits::SKIN8, EntityStateBits::SKIN16, 0),
        (EntityStateBits::EFFECTS8, EntityStateBits::EFFECTS16, 1),
        (EntityStateBits::RENDERFX8, EntityStateBits::RENDERFX16, 2),
    ] {
        if let Some(w) = wide(bits, lo, hi) {
            let x = next(w);
            push_le(&mut out, x, w);
            match slot { 0 => d.skin = Some(x), 1 => d.effects = Some(x), _ => d.render_fx = Some(x) }
        }
    }
    for (bit, slot) in [(EntityStateBits::ORIGIN1, 0), (EntityStateBits::ORIGIN2, 1), (EntityStateBits::ORIGIN3, 2)] {
        if has(bits, bit) {
            let x = next(2);
            push_le(&mut out, x, 2);
            let o = Some(x as u16);
            match slot { 0 => d.origin0 = o, 1 => d.origin1 = o, _ => d.origin2 = o }
        }
    }
    for (bit, slot) in [(EntityStateBits::ANGLE1, 0), (EntityStateBits::ANGLE2, 1), (EntityStateBits::ANGLE3, 2)] {
        if has(bits, bit) {
            let x = next(1);
            out.push(x as u8);
            let a = Some(x as u8);
            match slot { 0 => d.angle0 = a, 1 => d.angle1 = a, _ => d.angle2 = a }
        }
    }
    if has(bits, EntityStateBits::OLDORIGIN) {
        let (a, b, c) = (next(2), next(2), next(2));
        push_le(&mut out, a, 2);
        push_le(&mut out, b, 2);
        push_le(&mut out, c, 2);
        d.old_origin0 = Some(a as u16);
        d.old_origin1 = Some(b as u16);
        d.old_origin2 = Some(c as u16);
    }
    if has(bits, EntityStateBits::SOUND) {
        let x = next(1);
        out.push(x as u8);
        d.sound = Some(x as u8);
    }
    if has(bits, EntityStateBits::EVENT) {
        let x = next(1);
        out.push(x as u8);
        d.event = x as u8;
    }
    if has(bits, EntityStateBits::SOLID) {
        let x = next(2);
        push_le(&mut out, x, 2);
        d.solid = Some(x);
    }
    (out, d)
}

#[test]
fn entity_bits_round_trip() {
    let mut state: u32 = 0x1234_5678;
    for i in 0..4000u32 {
        state = state.wrapping_mul(1664525).wrapping_add(1013904223);
        let bits = if i < 28 { 1u32 << i } else { state & 0x0FFF_FFFF };
        let (mut bytes, expected) = encode(bits, i);
        let len = bytes.len();
        bytes.push(0x42);
        let mut pos: usize = 0;
        match parse_baseline(&bytes, &mut pos) {
            Some(ClientEvent::DeltaEntity(d)) => assert_eq!(d, expected, "bits {:#x}", bits),
            _ => panic!("no entity for bits {:#x}", bits),
        }
        assert_eq!(pos, len, "bits {:#x}", bits);
    }
}

#[test]
fn entity_header_lengths() {
    let mut pos: usize = 0;
    assert_eq!(parse_entity_bits(&[0x01, 0x05], &mut pos), Some((5, 1)));
    assert_eq!(pos, 2);
    let mut pos2: usize = 0;
    assert_eq!(parse_entity_bits(&[0x80, 0x01, 0x34, 0x12], &mut pos2), Some((0x1234, 0x180)));
    assert_eq!(pos2, 4);
    let mut pos3: usize = 0;
    assert_eq!(parse_entity_bits(&[0x80], &mut pos3), None);
    let mut pos4: usize = 0;
    assert_eq!(parse_entity_bits(&[0x01, 0xFF], &mut pos4), Some((-1, 1)));
}

#[test]
fn frame_with_both_bits_takes_three_bytes() {
    // FRAME8 | FRAME16, with the continuation bits the header needs.
    let bytes = vec![0x90u8, 0x80, 0x02, 0x07, 0xAA, 0x34, 0x12];
    let mut pos: usize = 0;
    match parse_baseline(&bytes, &mut pos) {
        Some(ClientEvent::DeltaEntity(d)) => {
            assert_eq!(d.number, 7);
            assert_eq!(d.frame, Some(0x1234));
        }
        _ => panic!("no entity"),
    }
    assert_eq!(pos, 7);
}

#[test]
fn laser_skin_takes_four_bytes() {
    // SKIN8 | SKIN16.
    let bytes = vec![0x80u8, 0x80, 0x81, 0x02, 0x03, 0x78, 0x56, 0x34, 0x12];
    let mut pos: usize = 0;
    match parse_baseline(&bytes, &mut pos) {
        Some(ClientEvent::DeltaEntity(d)) => {
            assert_eq!(d.number, 3);
            assert_eq!(d.skin, Some(0x1234_5678));
        }
        _ => panic!("no entity"),
    }
    assert_eq!(pos, 9);
}

#[test]
fn cut_short_origin_fails() {
    // ORIGIN1 announced, one byte left: the payload is cut short.
    let bytes = vec![0x01u8, 0x09, 0xFF];
    let mut pos: usize = 0;
    assert!(parse_baseline(&bytes, &mut pos).is_none());
    // SOUND announced and missing: no entity either.
    let sound_only = vec![0x80u8, 0x80, 0x80, 0x04, 0x02];
    let mut pos2: usize = 0;
    assert!(parse_baseline(&sound_only, &mut pos2).is_none());
}

#[test]
fn cut_short_model_fails() {
    let bytes = vec![0x80u8, 0x08, 0x01];
    let mut pos: usize = 0;
    assert!(parse_baseline(&bytes, &mut pos).is_none());
}
