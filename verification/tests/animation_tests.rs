use scampii::png::{base64_encode, render_png};
use scampii::{loop_action, Animation, Hue, LoopAction, LoopEvent, Theme, FRAMES, FRAME_COUNT};

fn expected_payload(theme: &Theme, cell_scale: u8, i: usize) -> Vec<u8> {
    let png = render_png(&FRAMES[i], theme, (2 * cell_scale as u16).min(16) as u8);
    let mut p = format!(
        "\x1b]1337;File=inline=1;width={};height={};preserveAspectRatio=1:",
        2 * cell_scale as u16,
        cell_scale as u16
    )
    .into_bytes();
    base64_encode(&png, &mut p);
    p.push(0x07);
    p
}

#[test]
fn animation_draw_cycles_through_frames() {
    let mut anim = Animation::new(Theme::classic());
    assert_eq!(anim.frame_index(), 0);
    for round in 0..2 {
        for i in 0..FRAME_COUNT {
            assert_eq!(anim.frame_index(), i, "round {round}");
            let mut out = Vec::new();
            anim.draw(&mut out);
            assert_eq!(out, expected_payload(&Theme::classic(), 1, i));
        }
    }
    assert_eq!(anim.frame_index(), 0);
}

#[test]
fn animation_reset_returns_to_first_frame() {
    let mut anim = Animation::new(Theme::classic());
    let mut out = Vec::new();
    anim.draw(&mut out);
    anim.draw(&mut out);
    assert_eq!(anim.frame_index(), 2);
    anim.reset();
    assert_eq!(anim.frame_index(), 0);
    let mut again = Vec::new();
    anim.draw(&mut again);
    assert_eq!(again, expected_payload(&Theme::classic(), 1, 0));
}

#[test]
fn animation_scale_rebuilds_payloads() {
    let mut theme = Theme::classic();
    theme.set_color(Hue::S3, 1, 2, 3);
    let mut anim = Animation::new(theme).scale(4);
    let mut out = Vec::new();
    anim.draw(&mut out);
    assert_eq!(out, expected_payload(&theme, 4, 0));
    assert!(out.starts_with(b"\x1b]1337;File=inline=1;width=8;height=4;"));
}

#[test]
fn animation_scale_zero_counts_as_one() {
    let a = Animation::new(Theme::classic()).scale(0);
    let b = Animation::new(Theme::classic());
    assert_eq!(a.payload_sizes(), b.payload_sizes());
}

#[test]
fn animation_draw_appends() {
    let mut anim = Animation::new(Theme::classic());
    let mut out = b"abc".to_vec();
    anim.draw(&mut out);
    assert!(out.starts_with(b"abc\x1b]1337;"));
    assert_eq!(out.len(), 3 + anim.payload_sizes()[0]);
}

#[test]
fn animation_payload_sizes_match_payloads() {
    let anim = Animation::new(Theme::classic()).scale(2);
    let sizes = anim.payload_sizes();
    assert_eq!(sizes.len(), FRAME_COUNT);
    for (i, &n) in sizes.iter().enumerate() {
        assert_eq!(n, expected_payload(&Theme::classic(), 2, i).len());
    }
}

#[test]
fn animation_large_scale_clamps_pixel_scale() {
    let mut anim = Animation::new(Theme::classic()).scale(128);
    let mut out = Vec::new();
    anim.draw(&mut out);
    let head = b"\x1b]1337;File=inline=1;width=256;height=128;preserveAspectRatio=1:";
    assert!(out.starts_with(head));
    let mut b64 = Vec::new();
    base64_encode(&render_png(&FRAMES[0], &Theme::classic(), 16), &mut b64);
    assert_eq!(&out[head.len()..out.len() - 1], &b64[..]);
    let top = Animation::new(Theme::classic()).scale(255);
    assert_eq!(top.current_payload(), &expected_payload(&Theme::classic(), 255, 0)[..]);
}

#[test]
fn animation_payload_then_advance() {
    let mut anim = Animation::new(Theme::classic());
    for i in 0..4 {
        assert_eq!(anim.current_payload(), &expected_payload(&Theme::classic(), 1, i % FRAME_COUNT)[..]);
        anim.advance();
    }
    assert_eq!(anim.frame_index(), 4 % FRAME_COUNT);
}

#[test]
fn loop_decision() {
    assert_eq!(loop_action(LoopEvent::Key), LoopAction::Quit);
    assert_eq!(loop_action(LoopEvent::Resize), LoopAction::ClearScreen);
    assert_eq!(loop_action(LoopEvent::Other), LoopAction::Continue);
}
