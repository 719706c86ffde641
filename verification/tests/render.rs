use lcd_terminal::render::{
    FbWriteError, FramebufferTarget, TerminalRenderer, ACCENT_COLOR, BG_COLOR, TEXT_COLOR,
};
use lcd_terminal::terminal::TerminalState;

struct RecordingSink {
    frames: Vec<Vec<u16>>,
}

impl FramebufferTarget for RecordingSink {
    fn eat_framebuffer(&mut self, buf: &[u16]) -> Result<(), FbWriteError> {
        self.frames.push(buf.to_vec());
        Ok(())
    }
}

struct FailingSink;

impl FramebufferTarget for FailingSink {
    fn eat_framebuffer(&mut self, _buf: &[u16]) -> Result<(), FbWriteError> {
        Err(FbWriteError::Error)
    }
}

fn cv(s: &str) -> Vec<char> {
    s.chars().collect()
}

#[test]
fn graphics_then_blit_transfers_background_and_separator_only() {
    let w = 30;
    let h = 40;
    let r = {
        let mut r = TerminalRenderer::new(w, h);
        r.draw_graphics();
        r
    };
    let mut sink = RecordingSink { frames: Vec::new() };
    assert!(r.blit(&mut sink).is_ok());
    assert_eq!(sink.frames.len(), 1);
    let frame = &sink.frames[0];
    assert_eq!(frame.len(), w * h);
    for y in 0..h {
        for x in 0..w {
            let expected = if y == h - 18 { ACCENT_COLOR } else { BG_COLOR };
            assert_eq!(frame[y * w + x], expected);
        }
    }
}

#[test]
fn text_phase_paints_prompt_glyphs() {
    let mut r = TerminalRenderer::new(90, 60);
    let mut t = TerminalState::new(90, 60);
    t.append_char('l');
    t.append_char('s');
    r.draw_graphics();
    r.draw_text(&t);
    let text_pixels = r.fbuf.iter().filter(|&&p| p == TEXT_COLOR).count();
    assert!(text_pixels > 0);
}

#[test]
fn draw_row_fault_changes_nothing_and_blit_still_succeeds() {
    let mut r = TerminalRenderer::new(30, 40);
    r.draw_graphics();
    let before = r.fbuf.clone();
    let fault = r.draw_row(&cv("hello"), 3, 1000);
    assert!(fault.is_err());
    assert_eq!(r.fbuf, before);
    let mut sink = RecordingSink { frames: Vec::new() };
    assert!(r.blit(&mut sink).is_ok());
    assert_eq!(sink.frames[0], before);
}

#[test]
fn overfull_history_faults_are_skipped_and_frame_is_delivered() {
    // capacity (45 + 14) / 15 + 2 == 5 rows, but only rows starting at
    // 2 and 17 fit a 45-pixel-high frame: the rest fault and are skipped
    let mut r = TerminalRenderer::new(45, 45);
    let mut t = TerminalState::new(45, 45);
    for _ in 0..5 {
        t.println("mm");
    }
    r.draw_graphics();
    r.draw_text(&t);
    let mut sink = RecordingSink { frames: Vec::new() };
    assert!(r.blit(&mut sink).is_ok());
    let text_pixels = sink.frames[0].iter().filter(|&&p| p == TEXT_COLOR).count();
    assert!(text_pixels > 0);
}

#[test]
fn draw_row_clips_cells_past_the_right_edge() {
    let w = 20;
    let mut r = TerminalRenderer::new(w, 40);
    // cells start at x = 3; the first (3..12) fits, the second (12..21)
    // would leave the 20-pixel-wide frame and is skipped
    let ok = r.draw_row(&cv("MM"), 3, 2);
    assert!(ok.is_ok());
    let mut first_cell: usize = 0;
    for y in 0..40 {
        for x in 0..w {
            let p = r.fbuf[y * w + x];
            if x >= 12 {
                assert_ne!(p, TEXT_COLOR);
            } else if p == TEXT_COLOR {
                first_cell += 1;
            }
        }
    }
    assert!(first_cell > 0);
}

#[test]
fn distinct_characters_have_distinct_glyphs() {
    let mut ra = TerminalRenderer::new(20, 20);
    let mut rb = TerminalRenderer::new(20, 20);
    assert!(ra.draw_row(&cv("A"), 0, 0).is_ok());
    assert!(rb.draw_row(&cv("B"), 0, 0).is_ok());
    assert_ne!(ra.fbuf, rb.fbuf);
}

#[test]
fn transfer_failure_is_surfaced_to_the_caller() {
    let mut r = TerminalRenderer::new(30, 40);
    r.draw_graphics();
    let mut sink = FailingSink;
    assert_eq!(r.blit(&mut sink), Err(FbWriteError::Error));
    // the frame is kept; the next transfer can still succeed
    let mut good = RecordingSink { frames: Vec::new() };
    assert!(r.blit(&mut good).is_ok());
}
