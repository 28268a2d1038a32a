//! The rendering-backend abstraction: a capability interface of shader,
//! buffer, uniform, draw, clear and viewport operations, independent of
//! whether execution happens on the CPU or a native graphics device, and the
//! software implementation that backs it with a plain pixel buffer.
//!
//! Uniform and vertex values are carried in 1/1024 fixed-point units.

use crate::color::Color;
use vstd::prelude::*;

verus! {

/// Which native rendering backend, if any, is bound.
#[derive(Debug, Clone, Copy, PartialEq, Eq, Structural)]
pub enum GpuBackendType {
    NoBackend,
    Vulkan,
    OpenGL,
    OpenGLES,
}

/// Primitive topologies a backend can draw.
#[derive(Debug, Clone, Copy, PartialEq, Eq, Structural)]
pub enum DrawMode {
    Triangles,
    TriangleStrip,
    Lines,
    Points,
}

/// A shader program: a backend-assigned handle and the two sources it was
/// built from. A handle of 0 means "not yet compiled".
pub struct ShaderProgram {
    pub id: u32,
    pub vertex_source: String,
    pub fragment_source: String,
}

impl ShaderProgram {
    /// A program from its sources, not yet compiled.
    pub fn new(vertex_source: String, fragment_source: String) -> (p: ShaderProgram)
        ensures
            p.id == 0,
            p.vertex_source@ == vertex_source@,
            p.fragment_source@ == fragment_source@,
    {
        ShaderProgram { id: 0, vertex_source, fragment_source }
    }
}

/// The capability interface of a rendering backend. What each operation does
/// is backend-specific by design: a native device performs it, the software
/// backend accepts and ignores everything but clear and viewport.
pub trait GpuBackend {
    /// Which backend kind this is.
    fn backend_type(&self) -> GpuBackendType;

    /// Compiles a shader pair; a backend without shaders returns a dummy
    /// handle.
    fn create_shader(&mut self, vertex_src: &str, fragment_src: &str) -> Result<u32, String>;

    /// Binds a compiled shader.
    fn use_shader(&mut self, shader_id: u32);

    /// Releases a compiled shader.
    fn delete_shader(&mut self, shader_id: u32);

    /// Uploads vertex data in 1/1024 fixed-point units.
    fn create_buffer(&mut self, data: &Vec<i64>) -> Result<u32, String>;

    /// Binds an uploaded buffer.
    fn bind_buffer(&mut self, buffer_id: u32);

    /// Releases an uploaded buffer.
    fn delete_buffer(&mut self, buffer_id: u32);

    /// Sets a 4x4 matrix uniform, row-major, in 1/1024 units.
    fn set_uniform_mat4(&mut self, name: &str, matrix: &[i64; 16]);

    /// Sets a 4-vector uniform in 1/1024 units.
    fn set_uniform_vec4(&mut self, name: &str, x: i64, y: i64, z: i64, w: i64);

    /// Sets a 3-vector uniform in 1/1024 units.
    fn set_uniform_vec3(&mut self, name: &str, x: i64, y: i64, z: i64);

    /// Sets a 2-vector uniform in 1/1024 units.
    fn set_uniform_vec2(&mut self, name: &str, x: i64, y: i64);

    /// Sets a scalar uniform in 1/1024 units.
    fn set_uniform_float(&mut self, name: &str, value: i64);

    /// Sets an integer uniform.
    fn set_uniform_int(&mut self, name: &str, value: i32);

    /// Draws vertices from the bound buffer.
    fn draw_arrays(&mut self, mode: DrawMode, first: i32, count: i32);

    /// Clears the whole target to one color.
    fn clear(&mut self, color: Color);

    /// Sets the target size in pixels.
    fn viewport(&mut self, x: i32, y: i32, width: i32, height: i32);
}

/// The byte of a color at channel position `k` of the B, G, R, A layout.
pub open spec fn bgra_byte(c: Color, k: int) -> u8 {
    if k == 0 {
        c.b
    } else if k == 1 {
        c.g
    } else if k == 2 {
        c.r
    } else {
        c.a
    }
}

/// The software fallback backend: a plain pixel buffer of its own, cleared
/// and resized directly. Shader, buffer, uniform and draw operations are
/// accepted but do nothing, since the canvas primitives already cover CPU
/// rendering.
pub struct SoftwareBackend {
    pub width: u32,
    pub height: u32,
    pub buffer: Vec<u8>,
}

impl SoftwareBackend {
    /// Four bytes per pixel.
    pub open spec fn wf(&self) -> bool {
        self.buffer@.len() == 4 * ((self.width as int) * (self.height as int))
    }

    /// A backend with a zeroed buffer of the given size.
    pub fn new(width: u32, height: u32) -> (b: SoftwareBackend)
        requires
            4 * ((width as int) * (height as int)) <= usize::MAX as int,
        ensures
            b.wf(),
            b.width == width,
            b.height == height,
            forall|j: int| 0 <= j < b.buffer@.len() ==> b.buffer@[j] == 0u8,
    {
        proof {
            assert(width as int * height as int * 4 == 4 * ((width as int) * (
            height as int))) by (nonlinear_arith);
        }
        let n: usize = (width as usize) * (height as usize) * 4;
        let mut buffer: Vec<u8> = Vec::new();
        let mut i: usize = 0;
        while i < n
            invariant
                i <= n,
                buffer@.len() == i,
                forall|j: int| 0 <= j < i ==> buffer@[j] == 0u8,
            decreases n - i,
        {
            buffer.push(0);
            i = i + 1;
        }
        SoftwareBackend { width, height, buffer }
    }

    /// The backing pixel buffer.
    pub fn get_buffer(&self) -> (b: &[u8])
        ensures
            b@ == self.buffer@,
    {
        self.buffer.as_slice()
    }

    /// Resizes the backing buffer to the new dimensions: the kept prefix is
    /// unchanged, any grown tail is zeroed.
    pub fn resize(&mut self, width: u32, height: u32)
        requires
            4 * ((width as int) * (height as int)) <= usize::MAX as int,
        ensures
            final(self).wf(),
            final(self).width == width,
            final(self).height == height,
            final(self).buffer@.len() == 4 * ((width as int) * (height as int)),
            forall|j: int|
                0 <= j < final(self).buffer@.len() ==> final(self).buffer@[j] == (
                if j < old(self).buffer@.len() {
                    old(self).buffer@[j]
                } else {
                    0u8
                }),
    {
        proof {
            assert(width as int * height as int * 4 == 4 * ((width as int) * (
            height as int))) by (nonlinear_arith);
        }
        let n: usize = (width as usize) * (height as usize) * 4;
        while self.buffer.len() > n
            invariant
                forall|j: int|
                    0 <= j < self.buffer@.len() ==> self.buffer@[j] == old(self).buffer@[j],
                self.buffer@.len() >= n || self.buffer@.len() == old(self).buffer@.len(),
                self.buffer@.len() <= old(self).buffer@.len(),
            decreases self.buffer@.len(),
        {
            self.buffer.pop();
            proof {
                assert(forall|j: int|
                    0 <= j < self.buffer@.len() ==> self.buffer@[j] == old(self).buffer@[j]);
            }
        }
        while self.buffer.len() < n
            invariant
                self.buffer@.len() <= n,
                old(self).buffer@.len() <= self.buffer@.len() || self.buffer@.len() == n,
                forall|j: int|
                    0 <= j < self.buffer@.len() ==> self.buffer@[j] == (if j < old(
                        self,
                    ).buffer@.len() {
                        old(self).buffer@[j]
                    } else {
                        0u8
                    }),
            decreases n - self.buffer@.len(),
        {
            self.buffer.push(0);
        }
        self.width = width;
        self.height = height;
    }

    /// Overwrites every whole pixel of the backing buffer with one color.
    fn fill_buffer(&mut self, color: Color)
        ensures
            final(self).width == old(self).width,
            final(self).height == old(self).height,
            final(self).buffer@.len() == old(self).buffer@.len(),
            forall|j: int|
                0 <= j < final(self).buffer@.len() ==> final(self).buffer@[j] == (
                if j < 4 * (old(self).buffer@.len() as int / 4) {
                    bgra_byte(color, j % 4)
                } else {
                    old(self).buffer@[j]
                }),
    {
        let n: usize = self.buffer.len();
        let mut i: usize = 0;
        while n - i >= 4
            invariant
                i % 4 == 0,
                i <= n,
                n == self.buffer@.len(),
                self.width == old(self).width,
                self.height == old(self).height,
                forall|j: int|
                    0 <= j < n ==> self.buffer@[j] == (if j < i {
                        bgra_byte(color, j % 4)
                    } else {
                        old(self).buffer@[j]
                    }),
            decreases n - i,
        {
            self.buffer[i] = color.b;
            self.buffer[i + 1] = color.g;
            self.buffer[i + 2] = color.r;
            self.buffer[i + 3] = color.a;
            proof {
                let m = i as int / 4;
                vstd::arithmetic::div_mod::lemma_fundamental_div_mod(i as int, 4);
                vstd::arithmetic::div_mod::lemma_fundamental_div_mod_converse(
                    i as int,
                    4,
                    m,
                    0,
                );
                vstd::arithmetic::div_mod::lemma_fundamental_div_mod_converse(
                    i as int + 1,
                    4,
                    m,
                    1,
                );
                vstd::arithmetic::div_mod::lemma_fundamental_div_mod_converse(
                    i as int + 2,
                    4,
                    m,
                    2,
                );
                vstd::arithmetic::div_mod::lemma_fundamental_div_mod_converse(
                    i as int + 3,
                    4,
                    m,
                    3,
                );
                vstd::arithmetic::div_mod::lemma_fundamental_div_mod_converse(
                    i as int + 4,
                    4,
                    m + 1,
                    0,
                );
            }
            i = i + 4;
        }
        proof {
            vstd::arithmetic::div_mod::lemma_fundamental_div_mod(n as int, 4);
            assert(i == 4 * (n as int / 4));
        }
    }
}

/// Whether a viewport request changes the software backend: nonnegative
/// dimensions that differ from the current ones and whose buffer size fits
/// the address space.
pub open spec fn viewport_applies(b: &SoftwareBackend, width: int, height: int) -> bool {
    &&& 0 <= width
    &&& 0 <= height
    &&& 4 * (width * height) <= usize::MAX as int
    &&& !(width == b.width as int && height == b.height as int)
}

impl GpuBackend for SoftwareBackend {
    /// The software backend binds no native device.
    fn backend_type(&self) -> (t: GpuBackendType)
        ensures
            t == GpuBackendType::NoBackend,
    {
        GpuBackendType::NoBackend
    }

    /// Software rendering uses no shaders: the request is accepted, a dummy
    /// handle is handed out, and nothing changes.
    fn create_shader(&mut self, vertex_src: &str, fragment_src: &str) -> (r: Result<u32, String>)
        ensures
            r == Result::<u32, String>::Ok(0u32),
            *final(self) == *old(self),
    {
        Ok(0)
    }

    /// Accepted and ignored.
    fn use_shader(&mut self, shader_id: u32)
        ensures
            *final(self) == *old(self),
    {
    }

    /// Accepted and ignored.
    fn delete_shader(&mut self, shader_id: u32)
        ensures
            *final(self) == *old(self),
    {
    }

    /// Software rendering uploads no buffers: the request is accepted, a
    /// dummy handle is handed out, and nothing changes.
    fn create_buffer(&mut self, data: &Vec<i64>) -> (r: Result<u32, String>)
        ensures
            r == Result::<u32, String>::Ok(0u32),
            *final(self) == *old(self),
    {
        Ok(0)
    }

    /// Accepted and ignored.
    fn bind_buffer(&mut self, buffer_id: u32)
        ensures
            *final(self) == *old(self),
    {
    }

    /// Accepted and ignored.
    fn delete_buffer(&mut self, buffer_id: u32)
        ensures
            *final(self) == *old(self),
    {
    }

    /// Accepted and ignored.
    fn set_uniform_mat4(&mut self, name: &str, matrix: &[i64; 16])
        ensures
            *final(self) == *old(self),
    {
    }

    /// Accepted and ignored.
    fn set_uniform_vec4(&mut self, name: &str, x: i64, y: i64, z: i64, w: i64)
        ensures
            *final(self) == *old(self),
    {
    }

    /// Accepted and ignored.
    fn set_uniform_vec3(&mut self, name: &str, x: i64, y: i64, z: i64)
        ensures
            *final(self) == *old(self),
    {
    }

    /// Accepted and ignored.
    fn set_uniform_vec2(&mut self, name: &str, x: i64, y: i64)
        ensures
            *final(self) == *old(self),
    {
    }

    /// Accepted and ignored.
    fn set_uniform_float(&mut self, name: &str, value: i64)
        ensures
            *final(self) == *old(self),
    {
    }

    /// Accepted and ignored.
    fn set_uniform_int(&mut self, name: &str, value: i32)
        ensures
            *final(self) == *old(self),
    {
    }

    /// Accepted and ignored.
    fn draw_arrays(&mut self, mode: DrawMode, first: i32, count: i32)
        ensures
            *final(self) == *old(self),
    {
    }

    /// Fills the backing buffer with the color, whole pixel by whole pixel;
    /// the dimensions are untouched.
    fn clear(&mut self, color: Color)
        ensures
            final(self).width == old(self).width,
            final(self).height == old(self).height,
            final(self).buffer@.len() == old(self).buffer@.len(),
            forall|j: int|
                0 <= j < final(self).buffer@.len() ==> final(self).buffer@[j] == (
                if j < 4 * (old(self).buffer@.len() as int / 4) {
                    bgra_byte(color, j % 4)
                } else {
                    old(self).buffer@[j]
                }),
    {
        self.fill_buffer(color);
    }

    /// Resizes the backing buffer when the requested size is new, sane and
    /// addressable: the kept prefix is unchanged, any grown tail is zeroed.
    /// Any other request leaves the backend exactly as it was.
    fn viewport(&mut self, x: i32, y: i32, width: i32, height: i32)
        ensures
            viewport_applies(old(self), width as int, height as int) ==> {
                &&& final(self).wf()
                &&& final(self).width as int == width as int
                &&& final(self).height as int == height as int
                &&& final(self).buffer@.len() == 4 * ((width as int) * (height as int))
                &&& forall|j: int|
                    0 <= j < final(self).buffer@.len() ==> final(self).buffer@[j] == (
                    if j < old(self).buffer@.len() {
                        old(self).buffer@[j]
                    } else {
                        0u8
                    })
            },
            !viewport_applies(old(self), width as int, height as int) ==> *final(self) == *old(
                self,
            ),
    {
        if width >= 0 && height >= 0 {
            if width as u32 != self.width || height as u32 != self.height {
                let wi: u128 = width as u128;
                let hi: u128 = height as u128;
                proof {
                    assert(0 <= 4 * (wi as int) * (hi as int) <= 0x4_0000_0000_0000_0000int)
                        by (nonlinear_arith)
                        requires
                            0 <= wi as int <= 0xffff_ffffint,
                            0 <= hi as int <= 0xffff_ffffint,
                    ;
                    assert(4 * ((wi as int) * (hi as int)) == 4 * (wi as int) * (
                    hi as int)) by (nonlinear_arith);
                }
                if 4 * wi * hi <= usize::MAX as u128 {
                    proof {
                        assert(4 * ((width as int) * (height as int)) == 4 * (width as int) * (
                        height as int)) by (nonlinear_arith);
                    }
                    self.resize(width as u32, height as u32);
                }
            }
        }
    }
}

} // verus!
