use dc34_badge::led_show::{
    hsv, larson, morse, off, rainbow, scale, scan_pins, solid, Blink, BRIGHTNESS, N_LEDS,
};

#[test]
fn scale_dims_to_brightness() {
    assert_eq!(BRIGHTNESS, 40);
    assert_eq!(scale(255), 40);
    assert_eq!(scale(128), 20);
    assert_eq!(scale(0), 0);
    assert_eq!(scale(7), 1);
}

#[test]
fn hsv_three_channel_values() {
    assert_eq!(hsv(0, 0, 77), (77, 77, 77));
    assert_eq!(hsv(0, 255, 255), (255, 0, 0));
    assert_eq!(hsv(86, 255, 255).1, 255);
    assert_eq!(hsv(172, 255, 255).2, 255);
}

#[test]
fn rainbow_spins() {
    let s = rainbow(0);
    assert_eq!(s.len(), N_LEDS);
    assert_eq!(s[0], (40, 0, 0));
    // LED i at frame f shows the hue LED 0 shows at frame f + 25 i
    assert_eq!(rainbow(0)[1], rainbow(25)[0]);
    assert_eq!(rainbow(3)[4], rainbow(103)[0]);
    for p in s.iter() {
        assert!(p.0 <= 40 && p.1 <= 40 && p.2 <= 40);
    }
}

#[test]
fn larson_head_and_tail() {
    let s = larson(0);
    assert_eq!(s[0], (40, 0, 0));
    assert_eq!(s[1], (12, 0, 0));
    assert_eq!(s[2], (3, 0, 0));
    for i in 3..10 {
        assert_eq!(s[i], (0, 0, 0));
    }
    // the head bounces: frame 12 is back at LED 6
    assert_eq!(larson(12)[6], (40, 0, 0));
    assert_eq!(larson(9)[9], (40, 0, 0));
    assert_eq!(larson(18), larson(0));
}

#[test]
fn solid_and_off() {
    assert!(solid(255, 128, 0).iter().all(|p| *p == (40, 20, 0)));
    assert!(off().iter().all(|p| *p == (0, 0, 0)));
}

#[test]
fn morse_single_letters() {
    assert_eq!(
        morse("E", 10),
        vec![Blink::On, Blink::Wait(10), Blink::Off, Blink::Wait(10), Blink::Wait(20)]
    );
    assert_eq!(
        morse("t", 10),
        vec![Blink::On, Blink::Wait(30), Blink::Off, Blink::Wait(10), Blink::Wait(20)]
    );
    assert_eq!(morse(" ", 10), vec![Blink::Wait(70)]);
    // a character without a code only waits between letters
    assert_eq!(morse("1", 10), vec![Blink::Wait(20)]);
    assert_eq!(morse("", 10), vec![]);
}

#[test]
fn morse_sos() {
    let s = morse("SOS", 100);
    // three letters of three symbols: 4 steps each, plus a letter gap each
    assert_eq!(s.len(), 3 * (3 * 4 + 1));
    assert_eq!(s[1], Blink::Wait(100));
    assert_eq!(s[13 + 1], Blink::Wait(300));
    assert_eq!(s[12], Blink::Wait(200));
    let on = s.iter().filter(|b| **b == Blink::On).count();
    assert_eq!(on, 9);
}

#[test]
fn scan_skips_the_wake_pin() {
    let pins = scan_pins();
    assert_eq!(pins.len(), 31);
    assert!(!pins.contains(&4));
    assert_eq!(&pins[..5], &[0, 1, 2, 3, 5]);
    assert_eq!(*pins.last().unwrap(), 31);
}
