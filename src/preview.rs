//! Checks and layout for rendering a single preview frame of a shader.

use vstd::prelude::*;
use vstd::string::StringSliceAdditionalSpecFns;

use crate::shm::{aligned_bytes_per_row, aligned_row, strip_row_padding, unpadded};

verus! {

/// Declares `std::io::Error` for use in the error type below.
#[verifier::external_type_specification]
#[verifier::external_body]
pub struct ExIoError(std::io::Error);

/// Why a preview could not be rendered.
#[derive(Debug)]
pub enum PreviewError {
    /// The shader file could not be read.
    Io(std::io::Error),
    /// The GPU resources could not be created.
    Gpu(String),
    /// The shader did not compile, or needs resources a preview lacks.
    ShaderCompilation(String),
}

/// The bytes of the texture uniform's name, `iTexture`; the sampler's name,
/// `iTextureSampler`, begins with it.
pub open spec fn texture_name() -> Seq<u8> {
    seq![105u8, 84u8, 101u8, 120u8, 116u8, 117u8, 114u8, 101u8]
}

/// Whether `pat` occurs in `s` starting at byte `i`.
pub open spec fn occurs_at(s: Seq<u8>, pat: Seq<u8>, i: int) -> bool {
    0 <= i && i + pat.len() <= s.len() && s.subrange(i, i + pat.len()) == pat
}

/// Whether `pat` occurs in `s`.
pub open spec fn occurs_in(s: Seq<u8>, pat: Seq<u8>) -> bool {
    exists|i: int| occurs_at(s, pat, i)
}

/// Whether shader source `code` refers to the texture uniforms, which a preview
/// does not provide.
pub fn uses_texture(code: &str) -> (r: bool)
    ensures
        r == occurs_in(code.spec_bytes(), texture_name()),
{
    let bytes = code.as_bytes();
    let pat: [u8; 8] = [105u8, 84u8, 101u8, 120u8, 116u8, 117u8, 114u8, 101u8];
    assert(pat@ == texture_name());
    let n = bytes.len();
    if n < 8 {
        assert forall|i: int| !occurs_at(code.spec_bytes(), texture_name(), i) by {}
        return false;
    }
    let mut i: usize = 0;
    while i <= n - 8
        invariant
            n == bytes@.len(),
            bytes@ == code.spec_bytes(),
            pat@ == texture_name(),
            8 <= n,
            i <= n - 7,
            forall|j: int| 0 <= j < i ==> !occurs_at(bytes@, pat@, j),
        decreases n - i,
    {
        let mut k: usize = 0;
        let mut matched = true;
        while k < 8
            invariant
                0 <= k <= 8,
                i + 8 <= n,
                n == bytes@.len(),
                matched == forall|m: int| 0 <= m < k ==> bytes@[i + m] == pat@[m],
            decreases 8 - k,
        {
            if bytes[i + k] != pat[k] {
                matched = false;
            }
            k = k + 1;
        }
        if matched {
            assert(bytes@.subrange(i as int, i + 8) =~= pat@);
            assert(occurs_at(code.spec_bytes(), texture_name(), i as int));
            return true;
        }
        proof {
            if occurs_at(bytes@, pat@, i as int) {
                assert forall|m: int| 0 <= m < 8 implies bytes@[i + m] == pat@[m] by {
                    assert(bytes@.subrange(i as int, i + 8)[m] == bytes@[i + m]);
                }
            }
        }
        i = i + 1;
    }
    assert forall|j: int| !occurs_at(bytes@, pat@, j) by {
        if j >= i {
            assert(j + 8 > n);
        }
    }
    false
}

/// Rejects a shader that a preview cannot render: one that refers to the
/// texture uniforms.
pub fn check_preview_shader(code: &str) -> (r: Result<(), PreviewError>)
    ensures
        r is Err <==> occurs_in(code.spec_bytes(), texture_name()),
        r matches Err(e) ==> e is ShaderCompilation,
{
    if uses_texture(code) {
        Err(PreviewError::ShaderCompilation("Shader requires texture resources not available in preview".to_string()))
    } else {
        Ok(())
    }
}

/// A GPU that renders single frames of a user shader off screen.
///
/// Nothing is assumed of what an implementation returns: the functions below
/// check the read-back buffer before they use it.
pub trait PreviewRenderer {
    /// Compiles `shader_code` behind the uniform preamble, renders one frame of
    /// `width` x `height` RGBA pixels, and returns the read-back buffer, whose
    /// rows start `bytes_per_row` bytes apart.
    fn render_rgba(&mut self, shader_code: &str, width: u32, height: u32, bytes_per_row: u32) -> Result<Vec<u8>, PreviewError>;
}

/// The preview frame made from a read-back result: its rows without padding,
/// or the renderer's error, or a GPU error if the buffer does not hold
/// `height` rows of `bytes_per_row` bytes.
pub fn finish_preview(
    width: u32,
    height: u32,
    bytes_per_row: u32,
    readback: Result<Vec<u8>, PreviewError>,
) -> (r: Result<(u32, u32, Vec<u8>), PreviewError>)
    requires
        4 * width <= bytes_per_row,
    ensures
        readback matches Err(e) ==> (r matches Err(e2) && e2 == e),
        readback matches Ok(data) ==> (r is Ok <==> data@.len() == height * bytes_per_row),
        (readback matches Ok(data) && data@.len() != height * bytes_per_row) ==> (r matches Err(e) && e is Gpu),
        r matches Ok((w, h, pixels)) ==> (w == width && h == height && (readback matches Ok(data)
            && pixels@ == unpadded(data@, width as nat, height as nat, bytes_per_row as nat))),
{
    match readback {
        Err(e) => Err(e),
        Ok(data) => {
            assert((height as int) * (bytes_per_row as int) <= u64::MAX) by (nonlinear_arith)
                requires height <= u32::MAX, bytes_per_row <= u32::MAX, height >= 0, bytes_per_row >= 0;
            if (data.len() as u64) != (height as u64) * (bytes_per_row as u64) {
                return Err(PreviewError::Gpu("Read-back buffer does not match the frame size".to_string()));
            }
            let pixels = strip_row_padding(&data, width, height, bytes_per_row);
            Ok((width, height, pixels))
        },
    }
}

/// Renders a single preview frame of a shader: rejects shaders that need
/// textures, pads rows as the GPU's copy requires, and returns the frame's
/// width, height and RGBA bytes without padding.
pub fn render_shader_preview<R: PreviewRenderer>(
    renderer: &mut R,
    shader_code: &str,
    width: u32,
    height: u32,
) -> (r: Result<(u32, u32, Vec<u8>), PreviewError>)
    ensures
        occurs_in(shader_code.spec_bytes(), texture_name()) ==> (r matches Err(e) && e is ShaderCompilation),
        (!occurs_in(shader_code.spec_bytes(), texture_name()) && 4 * width + 255 > u32::MAX) ==> (r matches Err(e) && e is Gpu),
        r matches Ok((w, h, pixels)) ==> w == width && h == height && pixels@.len() == 4 * width * height,
{
    check_preview_shader(shader_code)?;
    if width > (u32::MAX - 255) / 4 {
        return Err(PreviewError::Gpu("Preview width is too large".to_string()));
    }
    let bytes_per_row = aligned_bytes_per_row(width);
    let readback = renderer.render_rgba(shader_code, width, height, bytes_per_row);
    let ghost result = readback;
    let r = finish_preview(width, height, bytes_per_row, readback);
    proof {
        if r is Ok {
            let data = result->Ok_0;
            lemma_unpadded_len(data@, width as nat, height as nat, bytes_per_row as nat);
        }
    }
    r
}

/// Rows packed from a buffer of `height` rows hold four bytes per pixel.
proof fn lemma_unpadded_len(data: Seq<u8>, width: nat, height: nat, bytes_per_row: nat)
    requires
        4 * width <= bytes_per_row,
        data.len() == height * bytes_per_row,
    ensures
        unpadded(data, width, height, bytes_per_row).len() == 4 * width * height,
{
    if bytes_per_row == 4 * width {
        assert(data.len() == 4 * width * height) by (nonlinear_arith)
            requires data.len() == height * bytes_per_row, bytes_per_row == 4 * width;
    } else {
        lemma_packed_len(data, width, bytes_per_row, height);
    }
}

proof fn lemma_packed_len(data: Seq<u8>, width: nat, stride: nat, rows: nat)
    requires
        4 * width <= stride,
        rows * stride <= data.len(),
    ensures
        crate::shm::packed_rows(data, width, stride, rows).len() == 4 * width * rows,
    decreases rows,
{
    if rows > 0 {
        assert((rows - 1) * stride + stride == rows * stride) by (nonlinear_arith)
            requires rows > 0;
        lemma_packed_len(data, width, stride, (rows - 1) as nat);
        assert(4 * width * (rows - 1) + 4 * width == 4 * width * rows) by (nonlinear_arith)
            requires rows > 0;
    }
}

} // verus!
