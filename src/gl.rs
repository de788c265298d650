use vstd::prelude::*;

verus! {

/// How the renderer joins a vertex stream into primitives.
#[derive(Clone, Copy, Debug, PartialEq, Eq, Structural)]
pub enum DrawType {
    Triangles,
    Points,
    Lines,
    LineStrip,
}

#[derive(Clone, Copy, Debug, PartialEq, Eq, Structural)]
pub enum ShaderType {
    Compute,
    Vertex,
    TesellationControl,
    TessellationEvaluation,
    Geometry,
    Fragment,
}

#[derive(Clone, Copy, Debug, PartialEq, Eq, Structural)]
pub enum ImageFormat {
    R8,
    R16,
    R16F,
    R32F,
    R8I,
    R16I,
    R32I,
    R8UI,
    R16UI,
    R32UI,
    RG8,
    RG16,
    RG16F,
    RG32F,
    RG8I,
    RG16I,
    RG32I,
    RG8UI,
    RG16UI,
    RG32UI,
    RGB32F,
    RGB32I,
    RGB32UI,
    RGBA8,
    RGBA16,
    RGBA16F,
    RGBA32F,
    RGBA8I,
    RGBA16I,
    RGBA32I,
    RGBA8UI,
    RGBA16UI,
    RGBA32UI,
}

#[derive(Clone, Copy, Debug, PartialEq, Eq, Structural)]
pub enum OpenGlError {
    ShaderCreation,
    GetString,
    VertexArrayCreation,
}

#[derive(Debug)]
pub enum ProgramBuilderError {
    /// A shader file could not be read; the message says why.
    IoError(String),
    MissingGl,
    OpenGlError(OpenGlError),
    CreateProgram(String),
    CreateShader(String),
    ShaderCompile(String),
    CreateVertexBuffer(String),
    CreateVertexArray(String),
    ProgramLink(String),
}

#[derive(Clone, Copy, Debug, PartialEq, Eq, Structural)]
pub enum TextureBufferBuilderError {
    MissingFormat,
    OpenGlError(OpenGlError),
}

#[derive(Clone, Copy, Debug, PartialEq, Eq, Structural)]
pub enum WindowAction {
    Close,
    RequestRedraw,
}

#[derive(Clone, Copy, Debug, PartialEq, Eq, Structural)]
pub struct WindowSize {
    pub height: u32,
    pub width: u32,
}

/// What the graphics driver reports about itself.
#[derive(Debug)]
pub struct OpenGlInfo {
    pub renderer: String,
    pub version: String,
    pub shading_language_version: String,
}

/// Scalar type of one vertex attribute component.
#[derive(Clone, Copy, Debug, PartialEq, Eq, Structural)]
pub enum VertexType {
    Float,
    UInt,
}

pub open spec fn type_size(t: VertexType) -> nat {
    match t {
        VertexType::Float => 4,
        VertexType::UInt => 4,
    }
}

impl VertexType {
    /// Size of one component in bytes.
    pub fn size(&self) -> (r: u32)
        ensures
            r == type_size(*self),
    {
        match self {
            VertexType::Float => 4,
            VertexType::UInt => 4,
        }
    }
}

/// One vertex attribute: `count` components of one type.
#[derive(Clone, Copy, Debug, PartialEq, Eq, Structural)]
pub struct VertexFormat {
    pub count: u32,
    pub vertex_type: VertexType,
}

pub open spec fn format_size(f: VertexFormat) -> int {
    f.count * type_size(f.vertex_type)
}

/// Total byte size of the first `k` attributes of `fs`.
pub open spec fn offset_of(fs: Seq<VertexFormat>, k: int) -> int
    decreases k,
{
    if k <= 0 {
        0
    } else {
        offset_of(fs, k - 1) + format_size(fs[k - 1])
    }
}

impl VertexFormat {
    pub fn new(count: u32, vertex_type: VertexType) -> (f: VertexFormat)
        ensures
            f.count == count,
            f.vertex_type == vertex_type,
    {
        VertexFormat { count, vertex_type }
    }

    /// Size of the attribute in bytes.
    pub fn size(&self) -> (r: u32)
        requires
            format_size(*self) <= u32::MAX,
        ensures
            r == format_size(*self),
    {
        self.count * self.vertex_type.size()
    }
}

proof fn lemma_offsets_grow(fs: Seq<VertexFormat>, j: int, k: int)
    requires
        0 <= j <= k,
    ensures
        offset_of(fs, j) <= offset_of(fs, k),
    decreases k - j,
{
    if j < k {
        lemma_offsets_grow(fs, j, k - 1);
    }
}

/// Layout of an interleaved vertex: the stride, and the byte offset at which
/// each attribute starts, followed by the stride itself.
pub fn vertex_layout(formats: &[VertexFormat]) -> (r: (u32, Vec<u32>))
    requires
        offset_of(formats@, formats@.len() as int) <= u32::MAX,
    ensures
        r.0 == offset_of(formats@, formats@.len() as int),
        r.1@.len() == formats@.len() + 1,
        forall|k: int| 0 <= k <= formats@.len() ==> r.1@[k] == offset_of(formats@, k),
{
    let n = formats.len();
    let mut offsets: Vec<u32> = Vec::new();
    offsets.push(0);
    let mut step: u32 = 0;
    let mut i: usize = 0;
    while i < n
        invariant
            i <= n,
            n == formats@.len(),
            offset_of(formats@, n as int) <= u32::MAX,
            step == offset_of(formats@, i as int),
            offsets@.len() == i + 1,
            forall|k: int| 0 <= k <= i ==> offsets@[k] == offset_of(formats@, k),
        decreases n - i,
    {
        proof {
            lemma_offsets_grow(formats@, i + 1, n as int);
        }
        let size = formats[i].size();
        step = step + size;
        offsets.push(step);
        i = i + 1;
    }
    (step, offsets)
}

/// How many whole vertices `byte_len` bytes of interleaved data hold, or
/// `None` when the layout has no size.
pub fn vertex_count(byte_len: u32, formats: &[VertexFormat]) -> (r: Option<u32>)
    requires
        offset_of(formats@, formats@.len() as int) <= u32::MAX,
    ensures
        offset_of(formats@, formats@.len() as int) == 0 ==> r is None,
        offset_of(formats@, formats@.len() as int) > 0 ==> r == Some(
            (byte_len as int / offset_of(formats@, formats@.len() as int)) as u32,
        ),
{
    let (stride, _) = vertex_layout(formats);
    if stride == 0 {
        None
    } else {
        Some(byte_len / stride)
    }
}

/// Sum of the first `k` counts.
pub open spec fn prefix_sum(counts: Seq<u32>, k: int) -> int
    decreases k,
{
    if k <= 0 {
        0
    } else {
        prefix_sum(counts, k - 1) + counts[k - 1]
    }
}

proof fn lemma_prefix_grows(counts: Seq<u32>, j: int, k: int)
    requires
        0 <= j <= k,
    ensures
        prefix_sum(counts, j) <= prefix_sum(counts, k),
    decreases k - j,
{
    if j < k {
        lemma_prefix_grows(counts, j, k - 1);
    }
}

/// Several draws from one vertex buffer: draw `k` takes `count[k]` vertices
/// from `first[k]` on.
pub struct DrawArrays {
    pub first: Vec<u32>,
    pub count: Vec<u32>,
}

impl DrawArrays {
    pub fn new(first: Vec<u32>, count: Vec<u32>) -> (d: DrawArrays)
        ensures
            d.first@ == first@,
            d.count@ == count@,
    {
        DrawArrays { first, count }
    }

    /// Draws that follow one another in the buffer: each starts where the
    /// one before it ends.
    pub fn new_continuous(count: Vec<u32>) -> (d: DrawArrays)
        requires
            count@.len() > 0 ==> prefix_sum(count@, count@.len() - 1) <= u32::MAX,
        ensures
            d.count@ == count@,
            d.first@.len() == count@.len(),
            forall|k: int| 0 <= k < count@.len() ==> d.first@[k] == prefix_sum(count@, k),
    {
        let n = count.len();
        let mut first: Vec<u32> = Vec::new();
        if n > 0 {
            first.push(0);
        }
        let mut i: usize = 1;
        while i < n
            invariant
                n == count@.len(),
                n > 0 ==> prefix_sum(count@, n - 1) <= u32::MAX,
                1 <= i,
                n > 0 ==> i <= n,
                n == 0 ==> first@.len() == 0,
                n > 0 ==> first@.len() == i,
                forall|k: int| 0 <= k < first@.len() ==> first@[k] == prefix_sum(count@, k),
            decreases n - i,
        {
            proof {
                lemma_prefix_grows(count@, i as int, n - 1);
            }
            let next = first[i - 1] + count[i - 1];
            first.push(next);
            i = i + 1;
        }
        DrawArrays { first, count }
    }
}

/// The shader stage that a shader file's name (without its `.glsl`
/// extension) stands for, if any.
pub open spec fn shader_stage(name: Seq<char>) -> Option<ShaderType> {
    if name == "vert"@ || name == "vertex"@ {
        Some(ShaderType::Vertex)
    } else if name == "geom"@ || name == "geometry"@ {
        Some(ShaderType::Geometry)
    } else if name == "frag"@ || name == "fragment"@ {
        Some(ShaderType::Fragment)
    } else {
        None
    }
}

pub fn shader_type_for(name: &str) -> (r: Option<ShaderType>)
    ensures
        r == shader_stage(name@),
{
    if crate::osm::str_eq(name, "vert") || crate::osm::str_eq(name, "vertex") {
        Some(ShaderType::Vertex)
    } else if crate::osm::str_eq(name, "geom") || crate::osm::str_eq(name, "geometry") {
        Some(ShaderType::Geometry)
    } else if crate::osm::str_eq(name, "frag") || crate::osm::str_eq(name, "fragment") {
        Some(ShaderType::Fragment)
    } else {
        None
    }
}

/// Collects what a shader program is built from. `G` is the handle of the
/// graphics context that builds it.
pub struct ProgramBuilder<G> {
    pub gl: Option<G>,
    pub shaders: Vec<(ShaderType, String)>,
    pub vertex_format: Vec<VertexFormat>,
    pub draw_type: Option<DrawType>,
    pub buffer_texture: bool,
}

impl<G> ProgramBuilder<G> {
    pub fn new() -> (b: ProgramBuilder<G>)
        ensures
            b.gl is None,
            b.shaders@.len() == 0,
            b.vertex_format@.len() == 0,
            b.draw_type is None,
            !b.buffer_texture,
    {
        ProgramBuilder {
            gl: None,
            shaders: Vec::new(),
            vertex_format: Vec::new(),
            draw_type: None,
            buffer_texture: false,
        }
    }

    pub fn with_gl(self, gl: G) -> (b: ProgramBuilder<G>)
        ensures
            b.gl == Some(gl),
            b.shaders == self.shaders,
            b.vertex_format == self.vertex_format,
            b.draw_type == self.draw_type,
            b.buffer_texture == self.buffer_texture,
    {
        ProgramBuilder { gl: Some(gl), ..self }
    }

    pub fn with_shader(self, shader_type: ShaderType, source: &str) -> (b: ProgramBuilder<G>)
        ensures
            b.gl == self.gl,
            b.shaders@.len() == self.shaders@.len() + 1,
            b.shaders@.drop_last() == self.shaders@,
            b.shaders@.last().0 == shader_type,
            b.shaders@.last().1@ == source@,
            b.vertex_format == self.vertex_format,
            b.draw_type == self.draw_type,
            b.buffer_texture == self.buffer_texture,
    {
        let mut shaders = self.shaders;
        let ghost before = shaders@;
        shaders.push((shader_type, String::from_str(source)));
        assert(shaders@.drop_last() =~= before);
        ProgramBuilder { shaders, ..self }
    }

    pub fn with_format(self, format: &[VertexFormat]) -> (b: ProgramBuilder<G>)
        ensures
            b.gl == self.gl,
            b.shaders == self.shaders,
            b.vertex_format@ == format@,
            b.draw_type == self.draw_type,
            b.buffer_texture == self.buffer_texture,
    {
        let mut vertex_format: Vec<VertexFormat> = Vec::new();
        let mut i: usize = 0;
        while i < format.len()
            invariant
                i <= format@.len(),
                vertex_format@ == format@.subrange(0, i as int),
            decreases format@.len() - i,
        {
            vertex_format.push(format[i]);
            i = i + 1;
            assert(vertex_format@ =~= format@.subrange(0, i as int));
        }
        assert(format@.subrange(0, i as int) =~= format@);
        ProgramBuilder { vertex_format, ..self }
    }

    pub fn with_draw_type(self, draw_type: DrawType) -> (b: ProgramBuilder<G>)
        ensures
            b.gl == self.gl,
            b.shaders == self.shaders,
            b.vertex_format == self.vertex_format,
            b.draw_type == Some(draw_type),
            b.buffer_texture == self.buffer_texture,
    {
        ProgramBuilder { draw_type: Some(draw_type), ..self }
    }

    pub fn with_buffer_texture(self) -> (b: ProgramBuilder<G>)
        ensures
            b.gl == self.gl,
            b.shaders == self.shaders,
            b.vertex_format == self.vertex_format,
            b.draw_type == self.draw_type,
            b.buffer_texture,
    {
        ProgramBuilder { buffer_texture: true, ..self }
    }
}

/// Collects what a texture buffer is made with.
pub struct TextureBufferBuilder {
    pub format: Option<ImageFormat>,
}

/// A buffer that shaders read as a texture, in a given image format, on the
/// graphics context `G`.
pub struct TextureBuffer<G> {
    pub gl: G,
    pub format: ImageFormat,
}

impl TextureBufferBuilder {
    pub fn new() -> (b: TextureBufferBuilder)
        ensures
            b.format is None,
    {
        TextureBufferBuilder { format: None }
    }

    pub fn with_format(self, format: ImageFormat) -> (b: TextureBufferBuilder)
        ensures
            b.format == Some(format),
    {
        TextureBufferBuilder { format: Some(format) }
    }

    /// Fails when no format was given.
    pub fn build<G>(self, gl: G) -> (r: Result<TextureBuffer<G>, TextureBufferBuilderError>)
        ensures
            match self.format {
                Some(f) => r matches Ok(t) && t.format == f && t.gl == gl,
                None => r == Err::<TextureBuffer<G>, TextureBufferBuilderError>(
                    TextureBufferBuilderError::MissingFormat,
                ),
            },
    {
        match self.format {
            Some(format) => Ok(TextureBuffer { gl, format }),
            None => Err(TextureBufferBuilderError::MissingFormat),
        }
    }
}

} // verus!
