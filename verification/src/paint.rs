//! The painter: a flat, growable buffer of vertex coordinates.
//!
//! Geometry is appended once and may afterwards be overwritten in place through
//! the handle that the append returned, so that a shape which moves every
//! frame never makes the buffer grow.
//!
//! A coordinate is held as the bit pattern of an IEEE 754 single-precision
//! number (what `f32::to_bits` gives and `f32::from_bits` takes), which is
//! also the form in which the buffer is handed to the graphics device. The
//! `z` coordinate that the painter adds to every 2D point is the pattern `0`,
//! positive zero.

use vstd::prelude::*;

verus! {

/// The bit pattern of the `z` coordinate of every painted point: `0.0`.
pub const FLAT_Z: u32 = 0;

/// Why the painter refused a request. Nothing is written when it does.
#[derive(Clone, Copy, Debug, PartialEq, Eq, Structural)]
pub enum PaintError {
    /// The points do not form whole triangles, or there are not exactly as
    /// many of them as the handle's region holds.
    InvalidGeometry,
    /// The handle does not name a run of whole vertices inside this buffer.
    InvalidHandle,
}

impl PaintError {
    /// The text of each refusal.
    pub open spec fn text(self) -> Seq<char> {
        match self {
            PaintError::InvalidGeometry => "expected 3 points for each triangle."@,
            PaintError::InvalidHandle => "the handle does not belong to this buffer."@,
        }
    }

    /// A sentence for the operator.
    pub fn message(&self) -> (text: &'static str)
        ensures
            text@ == self.text(),
    {
        match self {
            PaintError::InvalidGeometry => "expected 3 points for each triangle.",
            PaintError::InvalidHandle => "the handle does not belong to this buffer.",
        }
    }
}

/// A handle to geometry that was painted before: the region of the buffer,
/// counted in coordinates, in which it lives.
#[derive(Clone, Copy, Debug, PartialEq, Eq, Structural)]
pub struct Painted {
    /// Index of the region's first coordinate.
    pub start: usize,
    /// Number of coordinates in the region, three for each point.
    pub length: usize,
}

impl Painted {
    /// Number of points in the region.
    pub open spec fn spec_count(&self) -> usize {
        (self.length / 3) as usize
    }

    /// Number of points in the region.
    #[verifier::when_used_as_spec(spec_count)]
    pub fn count(&self) -> (points: usize)
        ensures
            points == self.length / 3,
    {
        self.length / 3
    }

    /// Whether the region is a run of whole vertices inside a buffer of
    /// `buffer_len` coordinates.
    pub open spec fn within(&self, buffer_len: nat) -> bool {
        &&& self.start % 3 == 0
        &&& self.length % 3 == 0
        &&& self.start + self.length <= buffer_len
    }

    /// Whether no coordinate belongs to both regions.
    pub open spec fn disjoint(&self, other: Painted) -> bool {
        self.start + self.length <= other.start || other.start + other.length <= self.start
    }
}

/// A call that asks the device to draw `count` vertices of the bound buffer,
/// from vertex `first` on, as a list of triangles.
#[derive(Clone, Copy, Debug, PartialEq, Eq, Structural)]
pub struct DrawArrays {
    pub first: i32,
    pub count: i32,
}

/// An upload that replaces what the device buffer named `buffer` holds by
/// `data`, which is `size` bytes long.
#[derive(Clone, Copy, Debug)]
pub struct BufferData<'a> {
    pub buffer: u32,
    pub size: isize,
    pub data: &'a [u32],
}

/// The coordinates that a run of 2D points occupies in the buffer: for each
/// point its `x`, its `y` and a zero `z`.
pub open spec fn flattened(points: Seq<[u32; 2]>) -> Seq<u32> {
    Seq::new(
        3 * points.len(),
        |i: int|
            if i % 3 == 0 {
                points[i / 3][0]
            } else if i % 3 == 1 {
                points[i / 3][1]
            } else {
                FLAT_Z
            },
    )
}

/// `buffer` with the coordinates from `start` on replaced by `coords`.
pub open spec fn overwrite(buffer: Seq<u32>, start: int, coords: Seq<u32>) -> Seq<u32>
    recommends
        0 <= start,
        start + coords.len() <= buffer.len(),
{
    buffer.subrange(0, start) + coords + buffer.subrange(start + coords.len(), buffer.len() as int)
}

/// What appending `points` to a buffer that holds `before` comes to: the
/// buffer afterwards and the answer given.
pub open spec fn created(
    before: Seq<u32>,
    points: Seq<[u32; 2]>,
    after: Seq<u32>,
    answer: Result<Painted, PaintError>,
) -> bool {
    if points.len() % 3 != 0 {
        &&& answer == Err::<Painted, PaintError>(PaintError::InvalidGeometry)
        &&& after == before
    } else {
        &&& answer matches Ok(handle)
        &&& handle.start == before.len()
        &&& handle.length == 3 * points.len()
        &&& after == before + flattened(points)
    }
}

/// What overwriting the region of `handle` with `points` comes to, in a
/// buffer that holds `before`.
pub open spec fn updated(
    before: Seq<u32>,
    handle: Painted,
    points: Seq<[u32; 2]>,
    after: Seq<u32>,
    answer: Result<Painted, PaintError>,
) -> bool {
    if points.len() % 3 != 0 || handle.length != 3 * points.len() {
        &&& answer == Err::<Painted, PaintError>(PaintError::InvalidGeometry)
        &&& after == before
    } else if !handle.within(before.len()) {
        &&& answer == Err::<Painted, PaintError>(PaintError::InvalidHandle)
        &&& after == before
    } else {
        &&& answer == Ok::<Painted, PaintError>(handle)
        &&& after == overwrite(before, handle.start as int, flattened(points))
    }
}

/// What drawing `points` comes to: an append where the object was never
/// painted, an overwrite of its region where it was.
pub open spec fn drawn(
    before: Seq<u32>,
    painted: Option<Painted>,
    points: Seq<[u32; 2]>,
    after: Seq<u32>,
    answer: Result<Painted, PaintError>,
) -> bool {
    match painted {
        None => created(before, points, after, answer),
        Some(handle) => updated(before, handle, points, after, answer),
    }
}

/// An append makes the buffer longer by three coordinates for each point
/// and gives a handle that counts the points; a refused append leaves the
/// buffer as it was.
pub proof fn lemma_created_grows(
    before: Seq<u32>,
    points: Seq<[u32; 2]>,
    after: Seq<u32>,
    answer: Result<Painted, PaintError>,
)
    requires
        created(before, points, after, answer),
    ensures
        answer is Ok <==> points.len() % 3 == 0,
        answer matches Ok(handle) ==> {
            &&& after.len() == before.len() + 3 * points.len()
            &&& handle.count() == points.len()
            &&& forall|i: int| 0 <= i < before.len() ==> after[i] == before[i]
        },
        answer is Err ==> after == before,
{
}

/// An overwrite that is granted keeps the length of the buffer, puts the
/// coordinates of the points in the handle's region and leaves every
/// coordinate outside the region as it was. It is granted exactly when the
/// points form whole triangles, there are as many of them as the region
/// holds, and the region lies inside the buffer.
pub proof fn lemma_updated_in_place(
    before: Seq<u32>,
    handle: Painted,
    points: Seq<[u32; 2]>,
    after: Seq<u32>,
    answer: Result<Painted, PaintError>,
)
    requires
        updated(before, handle, points, after, answer),
    ensures
        answer is Ok <==> points.len() % 3 == 0 && handle.length == 3 * points.len()
            && handle.within(before.len()),
        answer is Ok ==> {
            &&& answer == Ok::<Painted, PaintError>(handle)
            &&& after.len() == before.len()
            &&& forall|i: int|
                handle.start <= i < handle.start + handle.length ==> after[i] == flattened(
                    points,
                )[i - handle.start]
            &&& forall|i: int|
                0 <= i < handle.start || handle.start + handle.length <= i < before.len()
                    ==> after[i] == before[i]
        },
        answer is Err ==> after == before,
{
}

/// Overwriting a region twice with the same points gives the same buffer and
/// the same answer as overwriting it once.
pub proof fn lemma_update_idempotent(
    before: Seq<u32>,
    handle: Painted,
    points: Seq<[u32; 2]>,
    once: Seq<u32>,
    first: Result<Painted, PaintError>,
    twice: Seq<u32>,
    second: Result<Painted, PaintError>,
)
    requires
        updated(before, handle, points, once, first),
        updated(once, handle, points, twice, second),
    ensures
        twice == once,
        second == first,
{
}

/// The regions of two appends that follow one another never overlap: the
/// second begins where the first ends. On an empty buffer the second
/// therefore begins at the first's length, three times the number of its
/// points, which is that number itself only where the first append was
/// empty.
pub proof fn lemma_appends_follow(
    before: Seq<u32>,
    first_points: Seq<[u32; 2]>,
    between: Seq<u32>,
    first: Painted,
    second_points: Seq<[u32; 2]>,
    after: Seq<u32>,
    second: Painted,
)
    requires
        created(before, first_points, between, Ok(first)),
        created(between, second_points, after, Ok(second)),
    ensures
        second.start == first.start + first.length,
        first.disjoint(second),
        before.len() == 0 ==> {
            &&& first.start == 0
            &&& second.start == first.length
            &&& second.start == 3 * first.count()
            &&& (second.start == first.count() <==> first_points.len() == 0)
        },
        forall|i: int| 0 <= i < between.len() ==> after[i] == between[i],
{
}

/// The regions of two appends to one buffer never overlap, whatever was
/// appended between them.
pub proof fn lemma_appended_regions_disjoint(
    before: Seq<u32>,
    first_points: Seq<[u32; 2]>,
    between: Seq<u32>,
    first: Painted,
    later: Seq<u32>,
    second_points: Seq<[u32; 2]>,
    after: Seq<u32>,
    second: Painted,
)
    requires
        created(before, first_points, between, Ok(first)),
        between.len() <= later.len(),
        created(later, second_points, after, Ok(second)),
    ensures
        first.disjoint(second),
        first.start + first.length <= second.start,
{
}

/// Drawing with no handle is appending: on the same buffer and the same
/// points both leave the same buffer and give the same answer.
pub proof fn lemma_draw_without_handle_appends(
    before: Seq<u32>,
    points: Seq<[u32; 2]>,
    drawn_after: Seq<u32>,
    drawn_answer: Result<Painted, PaintError>,
    created_after: Seq<u32>,
    created_answer: Result<Painted, PaintError>,
)
    requires
        drawn(before, None, points, drawn_after, drawn_answer),
        created(before, points, created_after, created_answer),
    ensures
        drawn_after == created_after,
        drawn_answer == created_answer,
{
}

/// The buffer never shrinks, and what a draw appends it appends behind the
/// coordinates that were there.
pub proof fn lemma_drawn_never_shrinks(
    before: Seq<u32>,
    painted: Option<Painted>,
    points: Seq<[u32; 2]>,
    after: Seq<u32>,
    answer: Result<Painted, PaintError>,
)
    requires
        drawn(before, painted, points, after, answer),
    ensures
        before.len() <= after.len(),
        painted is Some ==> after.len() == before.len(),
        painted is None ==> after.subrange(0, before.len() as int) == before,
{
}

/// The handle that an append gave is good for overwriting its region, with
/// as many points, in the same buffer however much was appended since.
pub proof fn lemma_created_handle_updates(
    before: Seq<u32>,
    points: Seq<[u32; 2]>,
    between: Seq<u32>,
    handle: Painted,
    later: Seq<u32>,
    new_points: Seq<[u32; 2]>,
    after: Seq<u32>,
    answer: Result<Painted, PaintError>,
)
    requires
        before.len() % 3 == 0,
        created(before, points, between, Ok(handle)),
        between.len() <= later.len(),
        new_points.len() == points.len(),
        updated(later, handle, new_points, after, answer),
    ensures
        answer == Ok::<Painted, PaintError>(handle),
        after.len() == later.len(),
{
}

/// The vertex buffer and the name of the device buffer it is uploaded to.
pub struct Paint {
    vertices: Vec<u32>,
    vertex_buffer_object: u32,
}

impl View for Paint {
    type V = Seq<u32>;

    /// The coordinates in the buffer, in order.
    closed spec fn view(&self) -> Seq<u32> {
        self.vertices@
    }
}

/// Appends the coordinates of `points` to `vertices`.
fn append_points(vertices: &mut Vec<u32>, points: &[[u32; 2]])
    ensures
        final(vertices)@ == old(vertices)@ + flattened(points@),
{
    let mut i: usize = 0;
    while i < points.len()
        invariant
            i <= points@.len(),
            vertices@ == old(vertices)@ + flattened(points@.subrange(0, i as int)),
        decreases points@.len() - i,
    {
        let point = &points[i];
        vertices.push(point[0]);
        vertices.push(point[1]);
        vertices.push(FLAT_Z);
        i += 1;
    }
}

/// Writes the coordinates of `points` over those that `vertices` holds from
/// `start` on.
fn overwrite_points(vertices: &mut Vec<u32>, start: usize, points: &[[u32; 2]])
    requires
        start + 3 * points@.len() <= old(vertices)@.len(),
    ensures
        final(vertices)@ == overwrite(old(vertices)@, start as int, flattened(points@)),
{
    let mut i: usize = 0;
    while i < points.len()
        invariant
            i <= points.len(),
            start + 3 * points.len() <= vertices.len(),
            vertices.len() == old(vertices).len(),
            forall|j: int|
                0 <= j < vertices@.len() ==> vertices@[j] == if start <= j < start + 3 * i {
                    flattened(points@)[j - start]
                } else {
                    old(vertices)@[j]
                },
        decreases points@.len() - i,
    {
        let point = &points[i];
        let at: usize = start + 3 * i;
        vertices[at] = point[0];
        vertices[at + 1] = point[1];
        vertices[at + 2] = FLAT_Z;
        i += 1;
    }
}

impl Paint {
    /// Every value of this type holds whole vertices.
    #[verifier::type_invariant]
    closed spec fn whole_vertices(&self) -> bool {
        self.vertices@.len() % 3 == 0
    }

    /// The name of the device buffer that this painter fills.
    pub closed spec fn spec_vertex_buffer_object(&self) -> u32 {
        self.vertex_buffer_object
    }

    /// An empty painter for the device buffer named `vao`.
    pub fn new(vao: &u32) -> (paint: Self)
        ensures
            paint@ == Seq::<u32>::empty(),
            paint.vertex_buffer_object() == *vao,
    {
        Paint { vertices: Vec::new(), vertex_buffer_object: *vao }
    }

    /// The name of the device buffer that this painter fills.
    #[verifier::when_used_as_spec(spec_vertex_buffer_object)]
    pub fn vertex_buffer_object(&self) -> (name: u32)
        ensures
            name == self.vertex_buffer_object(),
    {
        self.vertex_buffer_object
    }

    /// The coordinates in the buffer, three for each vertex.
    pub fn vertices(&self) -> (coords: &[u32])
        ensures
            coords@ == self@,
            coords@.len() % 3 == 0,
    {
        proof {
            use_type_invariant(self);
        }
        self.vertices.as_slice()
    }

    /// The coordinates of the region that `handle` names, where it names a
    /// run of whole vertices inside this buffer.
    pub fn region(&self, handle: &Painted) -> (coords: Option<&[u32]>)
        ensures
            coords is Some <==> handle.within(self@.len()),
            coords matches Some(coords) ==> coords@ == self@.subrange(
                handle.start as int,
                handle.start + handle.length,
            ),
    {
        let len = self.vertices.len();
        if handle.start % 3 != 0 || handle.length % 3 != 0 || handle.start > len || handle.length
            > len - handle.start {
            None
        } else {
            Some(
                vstd::slice::slice_subrange(
                    self.vertices.as_slice(),
                    handle.start,
                    handle.start + handle.length,
                ),
            )
        }
    }

    /// The draw call for the whole buffer: it starts at the first vertex and
    /// counts as many vertices as the buffer has coordinates. There is none
    /// where that number is more than the device can be asked for at once.
    pub fn set_draw_triangles(&self) -> (call: Option<DrawArrays>)
        ensures
            match call {
                Some(call) => call.first == 0 && call.count == self@.len(),
                None => self@.len() > i32::MAX,
            },
    {
        let len = self.vertices.len();
        if len > i32::MAX as usize {
            None
        } else {
            Some(DrawArrays { first: 0, count: len as i32 })
        }
    }

    /// The upload of the whole buffer to the device buffer of this painter,
    /// four bytes for each coordinate. There is none where the number of
    /// bytes is more than the device can be told.
    pub fn publish(&self) -> (upload: Option<BufferData<'_>>)
        ensures
            match upload {
                Some(upload) => {
                    &&& upload.buffer == self.vertex_buffer_object()
                    &&& upload.size == 4 * self@.len()
                    &&& upload.data@ == self@
                },
                None => 4 * self@.len() > isize::MAX,
            },
    {
        let len = self.vertices.len();
        if len > isize::MAX as usize / 4 {
            None
        } else {
            Some(
                BufferData {
                    buffer: self.vertex_buffer_object,
                    size: (4 * len) as isize,
                    data: self.vertices.as_slice(),
                },
            )
        }
    }

    /// Appends one triangle and returns the handle to it.
    pub fn create_triangle2d(&mut self, points: &[[u32; 2]; 3]) -> (handle: Painted)
        ensures
            created(old(self)@, points@, final(self)@, Ok(handle)),
            final(self)@.len() == old(self)@.len() + 9,
            handle.count() == 3,
            final(self).vertex_buffer_object() == old(self).vertex_buffer_object(),
    {
        proof {
            use_type_invariant(&*self);
        }
        let mut vertices: Vec<u32> = Vec::new();
        core::mem::swap(&mut self.vertices, &mut vertices);
        let initial = vertices.len();
        append_points(&mut vertices, points.as_slice());
        let length = vertices.len() - initial;
        self.vertices = vertices;
        Painted { start: initial, length }
    }

    /// Overwrites in place the triangle that `painted` names, or appends the
    /// triangle where `painted` is `None`.
    pub fn draw_triangle2d(&mut self, painted: &Option<Painted>, points: &[[u32; 2]; 3]) -> (answer:
        Result<Painted, PaintError>)
        ensures
            drawn(old(self)@, *painted, points@, final(self)@, answer),
            answer is Ok <==> (*painted matches Some(handle) ==> {
                &&& handle.length == 9
                &&& handle.within(old(self)@.len())
            }),
            answer is Err ==> final(self)@ == old(self)@,
            final(self).vertex_buffer_object() == old(self).vertex_buffer_object(),
    {
        self.draw_triangles2d(painted, points.as_slice())
    }

    /// Appends the triangles that `points` form, three points each, and
    /// returns the handle to them. Refuses a number of points that is not a
    /// multiple of three.
    pub fn create_triangles2d(&mut self, points: &[[u32; 2]]) -> (answer: Result<
        Painted,
        PaintError,
    >)
        ensures
            created(old(self)@, points@, final(self)@, answer),
            answer is Ok <==> points@.len() % 3 == 0,
            answer matches Ok(handle) ==> {
                &&& final(self)@.len() == old(self)@.len() + 3 * points@.len()
                &&& handle.count() == points@.len()
                &&& handle.within(final(self)@.len())
            },
            answer is Err ==> final(self)@.len() == old(self)@.len(),
            final(self).vertex_buffer_object() == old(self).vertex_buffer_object(),
    {
        proof {
            use_type_invariant(&*self);
        }
        if points.len() % 3 != 0 {
            return Err(PaintError::InvalidGeometry);
        }
        let mut vertices: Vec<u32> = Vec::new();
        core::mem::swap(&mut self.vertices, &mut vertices);
        let initial = vertices.len();
        append_points(&mut vertices, points);
        let length = vertices.len() - initial;
        self.vertices = vertices;
        Ok(Painted { start: initial, length })
    }

    /// Overwrites in place the region that `painted` names with `points`, or
    /// appends them where `painted` is `None`. An overwrite leaves every
    /// coordinate outside the region as it was and returns the same handle.
    pub fn draw_triangles2d(&mut self, painted: &Option<Painted>, points: &[[u32; 2]]) -> (answer:
        Result<Painted, PaintError>)
        ensures
            drawn(old(self)@, *painted, points@, final(self)@, answer),
            answer is Ok <==> points@.len() % 3 == 0 && (*painted matches Some(handle) ==> {
                &&& handle.length == 3 * points@.len()
                &&& handle.within(old(self)@.len())
            }),
            *painted is None ==> created(old(self)@, points@, final(self)@, answer),
            *painted is Some && answer is Ok ==> {
                &&& answer == Ok::<Painted, PaintError>(painted->0)
                &&& final(self)@.len() == old(self)@.len()
                &&& forall|i: int|
                    0 <= i < old(self)@.len() ==> #[trigger] final(self)@[i] == if painted->0.start
                        <= i < painted->0.start + painted->0.length {
                        flattened(points@)[i - painted->0.start]
                    } else {
                        old(self)@[i]
                    }
            },
            answer is Err ==> final(self)@ == old(self)@,
            final(self).vertex_buffer_object() == old(self).vertex_buffer_object(),
    {
        proof {
            use_type_invariant(&*self);
        }
        match painted {
            None => self.create_triangles2d(points),
            Some(handle) => {
                if points.len() % 3 != 0 || handle.length % 3 != 0 || handle.length / 3
                    != points.len() {
                    return Err(PaintError::InvalidGeometry);
                }
                let len = self.vertices.len();
                if handle.start % 3 != 0 || handle.start > len || handle.length > len
                    - handle.start {
                    return Err(PaintError::InvalidHandle);
                }
                let mut vertices: Vec<u32> = Vec::new();
                core::mem::swap(&mut self.vertices, &mut vertices);
                overwrite_points(&mut vertices, handle.start, points);
                self.vertices = vertices;
                Ok(*handle)
            },
        }
    }
}

} // verus!
