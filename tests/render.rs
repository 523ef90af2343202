use glowberry::pacing::{frame_interval, FramePacer};
use glowberry::preview::{
    check_preview_shader, finish_preview, render_shader_preview, uses_texture, PreviewError, PreviewRenderer,
};
use glowberry::shader_analysis::Complexity;
use glowberry::shm::{aligned_bytes_per_row, shm_pixels_from_rgba, strip_row_padding, FrameSlot};

#[test]
fn aligned_bytes_per_row_alignment() {
    // Width 1 should be padded to alignment
    let aligned = aligned_bytes_per_row(1);
    assert_eq!(aligned, wgpu::COPY_BYTES_PER_ROW_ALIGNMENT);
}

#[test]
fn aligned_bytes_per_row_values() {
    assert_eq!(aligned_bytes_per_row(0), 0);
    assert_eq!(aligned_bytes_per_row(64), 256);
    assert_eq!(aligned_bytes_per_row(65), 512);
    assert_eq!(aligned_bytes_per_row(1920), 7680);
}

#[test]
fn frame_gate_follows_override() {
    assert_eq!(frame_interval(60), 16_666);
    assert_eq!(frame_interval(0), u64::MAX);
    let mut p = FramePacer::new(60, 1_000);
    assert_eq!(p.configured_frame_rate(), 60);
    assert!(!p.should_render(1_000 + 16_665));
    assert!(p.should_render(1_000 + 16_666));
    p.set_frame_rate_override(Some(10));
    assert_eq!(p.effective_interval(), 100_000);
    assert!(!p.should_render(1_000 + 99_999));
    assert!(p.should_render(1_000 + 100_000));
    p.mark_frame_rendered(200_000);
    assert_eq!(p.elapsed(200_000), 0);
    assert!(!p.should_render(200_000));
    assert_eq!(p.elapsed(150_000), 0);
    p.set_frame_rate_override(None);
    assert!(p.should_render(216_666));
    p.set_frame_rate_override(Some(0));
    assert!(!p.should_render(u64::MAX - 1));
}

#[test]
fn latest_frame_wins() {
    let mut slot = FrameSlot::new();
    slot.publish("F1");
    slot.publish("F2");
    slot.publish("F3");
    assert_eq!(slot.try_take_latest(), Some("F3"));
    assert_eq!(slot.try_take_latest(), None);
}

#[test]
fn shm_pixels_swap_red_and_blue() {
    // Two rows of two pixels, rows 12 bytes apart.
    let data: Vec<u8> = (0u8..24).collect();
    let out = shm_pixels_from_rgba(&data, 2, 2, 12);
    assert_eq!(out, vec![2, 1, 0, 3, 6, 5, 4, 7, 14, 13, 12, 15, 18, 17, 16, 19]);
}

#[test]
fn strip_padding_packs_rows() {
    let data: Vec<u8> = (0u8..24).collect();
    assert_eq!(strip_row_padding(&data, 2, 2, 12), vec![0, 1, 2, 3, 4, 5, 6, 7, 12, 13, 14, 15, 16, 17, 18, 19]);
    let tight: Vec<u8> = (0u8..16).collect();
    assert_eq!(strip_row_padding(&tight, 2, 2, 8), tight);
}

#[test]
fn preview_rejects_texture_shaders() {
    assert!(uses_texture("let c = textureSample(iTexture, iTextureSampler, uv);"));
    assert!(!uses_texture("fn main() { iTime; }"));
    assert!(!uses_texture("iTextur"));
    assert!(matches!(check_preview_shader("iTextureSampler"), Err(PreviewError::ShaderCompilation(_))));
    assert!(check_preview_shader("fn fs_main() {}").is_ok());
}

#[test]
fn complexity_names() {
    assert_eq!(Complexity::Low.as_str(), "Low");
    assert_eq!(Complexity::Medium.as_str(), "Medium");
    assert_eq!(Complexity::High.as_str(), "High");
}

struct FakeGpu {
    calls: u32,
    fail: bool,
}

impl PreviewRenderer for FakeGpu {
    fn render_rgba(&mut self, _code: &str, width: u32, height: u32, bytes_per_row: u32) -> Result<Vec<u8>, PreviewError> {
        self.calls += 1;
        if self.fail {
            return Err(PreviewError::Gpu("no adapter".to_string()));
        }
        let mut data = Vec::new();
        for row in 0..height {
            for b in 0..bytes_per_row {
                data.push(if b < 4 * width { row as u8 + 1 } else { 0 });
            }
        }
        Ok(data)
    }
}

#[test]
fn preview_strips_gpu_row_padding() {
    let mut gpu = FakeGpu { calls: 0, fail: false };
    let (w, h, pixels) = render_shader_preview(&mut gpu, "fn fs_main() {}", 3, 2).unwrap();
    assert_eq!((w, h), (3, 2));
    assert_eq!(pixels.len(), 24);
    assert_eq!(&pixels[..12], &[1u8; 12]);
    assert_eq!(&pixels[12..], &[2u8; 12]);
}

#[test]
fn preview_texture_shader_never_reaches_gpu() {
    let mut gpu = FakeGpu { calls: 0, fail: false };
    let r = render_shader_preview(&mut gpu, "textureSample(iTexture, s, uv)", 3, 2);
    assert!(matches!(r, Err(PreviewError::ShaderCompilation(_))));
    assert_eq!(gpu.calls, 0);
}

#[test]
fn preview_passes_on_gpu_errors() {
    let mut gpu = FakeGpu { calls: 0, fail: true };
    let r = render_shader_preview(&mut gpu, "fn fs_main() {}", 3, 2);
    assert!(matches!(r, Err(PreviewError::Gpu(_))));
    let r = render_shader_preview(&mut gpu, "fn fs_main() {}", u32::MAX, 2);
    assert!(matches!(r, Err(PreviewError::Gpu(_))));
    assert_eq!(gpu.calls, 1);
}

#[test]
fn finish_preview_checks_buffer_size() {
    let r = finish_preview(1, 2, 256, Ok(vec![0u8; 100]));
    assert!(matches!(r, Err(PreviewError::Gpu(_))));
    let r = finish_preview(1, 2, 4, Ok(vec![9u8; 8]));
    assert_eq!(r.unwrap(), (1, 2, vec![9u8; 8]));
}
