use vstd::prelude::*;

use crate::color::{white, Color};
use crate::obj::{Corner, ObjMesh, ObjMeshView};

verus! {

/// Where one model lies in a [`UnifiedGeometryBuffer`].
#[derive(Debug, Clone, Copy)]
pub struct ModelInfo {
    /// This model's id, unique in its buffer; models are kept in increasing id order.
    pub id: usize,
    /// Where this model starts in the buffer's vertices.
    pub base_vertex: usize,
    /// Where this model's vertex indices start in the buffer's indices.
    pub index_start: usize,
    /// How many indices to draw.
    pub index_count: usize,
    /// Texture id used by this model.
    pub texture_id: usize,
}

/// A vertex of a model: a position, a texture coordinate and a normal, of whatever
/// types the renderer uses for them, and a colour.
#[derive(Debug, Clone, Copy)]
pub struct Vertex<P, T, N> {
    pub pos: P,
    pub uv: T,
    pub normal: N,
    pub color: Color,
}

/// Every model's vertices and indices, one model after the other.
pub struct UnifiedGeometryBuffer<V> {
    /// Every vertex for every model, one after the other.
    pub vertices: Vec<V>,
    /// Triplets of vertex indices for every triangle of a model, stored sequentially
    /// through the models; each index counts from its model's first vertex.
    pub indices: Vec<usize>,
    /// Metadata to find specific models.
    pub models: Vec<ModelInfo>,
    /// How many models were ever added; the next model gets this number as its id.
    pub models_loaded: usize,
}

/// One model as a user sees it: its id, its texture id, its vertices and its indices.
pub type ModelContent<V> = (usize, usize, Seq<V>, Seq<usize>);

impl<V> UnifiedGeometryBuffer<V> {
    /// Where model `k`'s vertices end: where the next model's begin, or the end of the
    /// buffer for the last model.
    pub open spec fn vertex_end(&self, k: int) -> int {
        if k + 1 < self.models@.len() {
            self.models@[k + 1].base_vertex as int
        } else {
            self.vertices@.len() as int
        }
    }

    /// The vertices of model `k`.
    pub open spec fn model_vertices(&self, k: int) -> Seq<V> {
        self.vertices@.subrange(self.models@[k].base_vertex as int, self.vertex_end(k))
    }

    /// The indices of model `k`.
    pub open spec fn model_indices(&self, k: int) -> Seq<usize> {
        self.indices@.subrange(
            self.models@[k].index_start as int,
            self.models@[k].index_start + self.models@[k].index_count,
        )
    }

    /// The models in the buffer, in order.
    pub open spec fn contents(&self) -> Seq<ModelContent<V>> {
        Seq::new(
            self.models@.len(),
            |k: int|
                (
                    self.models@[k].id,
                    self.models@[k].texture_id,
                    self.model_vertices(k),
                    self.model_indices(k),
                ),
        )
    }

    /// Model ids strictly increase along `models` and stay below `models_loaded`.
    #[verifier::opaque]
    pub open spec fn ids_ordered(&self) -> bool {
        &&& forall|i: int, j: int|
            #![trigger self.models@[i], self.models@[j]]
            0 <= i < j < self.models@.len() ==> self.models@[i].id < self.models@[j].id
        &&& forall|k: int|
            #![trigger self.models@[k]]
            0 <= k < self.models@.len() ==> self.models@[k].id < self.models_loaded
    }

    /// The models' vertex ranges follow one another from the start of `vertices` to its end.
    #[verifier::opaque]
    pub open spec fn vertices_tiled(&self) -> bool {
        let models = self.models@;
        let n = models.len();
        &&& n == 0 ==> self.vertices@.len() == 0
        &&& n > 0 ==> models[0].base_vertex == 0
        &&& n > 0 ==> models[n - 1].base_vertex <= self.vertices@.len()
        &&& forall|i: int, j: int|
            #![trigger models[i], models[j]]
            0 <= i < j < n ==> models[i].base_vertex <= models[j].base_vertex
    }

    /// The models' index ranges follow one another from the start of `indices` to its end.
    #[verifier::opaque]
    pub open spec fn indices_tiled(&self) -> bool {
        let models = self.models@;
        let n = models.len();
        &&& n == 0 ==> self.indices@.len() == 0
        &&& n > 0 ==> models[0].index_start == 0
        &&& n > 0 ==> models[n - 1].index_start + models[n - 1].index_count == self.indices@.len()
        &&& forall|i: int, j: int|
            #![trigger models[i], models[j]]
            0 <= i < j < n ==> models[i].index_start + models[i].index_count <= models[j].index_start
        &&& forall|i: int, j: int|
            #![trigger models[i], models[j]]
            0 <= i && j == i + 1 && j < n ==> models[j].index_start == models[i].index_start
                + models[i].index_count
    }

    /// Every index of a model points at one of that model's vertices.
    #[verifier::opaque]
    pub open spec fn indices_in_model(&self) -> bool {
        forall|k: int, j: int|
            0 <= k < self.models@.len() && 0 <= j < self.models@[k].index_count ==> #[trigger] self.model_indices(k)[j]
                < self.vertex_end(k) - self.models@[k].base_vertex
    }

    /// Every model's indices come in triplets, one per triangle.
    #[verifier::opaque]
    pub open spec fn whole_triangles(&self) -> bool {
        forall|k: int|
            #![trigger self.models@[k]]
            0 <= k < self.models@.len() ==> self.models@[k].index_count % 3 == 0
    }

    /// The layout invariant: the models' vertex ranges and index ranges tile the
    /// buffer in model order, ids increase and are below the number of models ever
    /// added, every model's indices are triplets and every index of a model points at
    /// one of that model's vertices.
    pub open spec fn well_formed(&self) -> bool {
        &&& self.ids_ordered()
        &&& self.vertices_tiled()
        &&& self.indices_tiled()
        &&& self.whole_triangles()
        &&& self.indices_in_model()
    }

    /// An empty buffer.
    pub fn new() -> (ugb: Self)
        ensures
            ugb.well_formed(),
            ugb.contents() == Seq::<ModelContent<V>>::empty(),
            ugb.vertices@.len() == 0,
            ugb.indices@.len() == 0,
            ugb.models_loaded == 0,
    {
        let ugb = UnifiedGeometryBuffer {
            vertices: Vec::new(),
            indices: Vec::new(),
            models: Vec::new(),
            models_loaded: 0,
        };
        assert(ugb.contents() =~= Seq::<ModelContent<V>>::empty());
        proof {
            reveal(UnifiedGeometryBuffer::ids_ordered);
            reveal(UnifiedGeometryBuffer::vertices_tiled);
            reveal(UnifiedGeometryBuffer::indices_tiled);
            reveal(UnifiedGeometryBuffer::indices_in_model);
            reveal(UnifiedGeometryBuffer::whole_triangles);
        }
        ugb
    }

    /// Appends a model made of `vertices` and `indices` (which count from the model's
    /// first vertex), drawn with texture `texture_id`, and returns its id. Both vectors
    /// are emptied into the buffer.
    #[verifier::rlimit(40)]
    fn append_model(&mut self, vertices: &mut Vec<V>, indices: &mut Vec<usize>, texture_id: usize) -> (id: usize)
        requires
            old(self).well_formed(),
            old(self).models_loaded < usize::MAX,
            forall|j: int| 0 <= j < old(indices)@.len() ==> #[trigger] old(indices)@[j] < old(vertices)@.len(),
            old(indices)@.len() % 3 == 0,
        ensures
            id == old(self).models_loaded,
            final(self).models_loaded == old(self).models_loaded + 1,
            final(self).well_formed(),
            final(self).contents() == old(self).contents().push((id, texture_id, old(vertices)@, old(indices)@)),
    {
        let ghost prev = *self;
        proof {
            reveal(UnifiedGeometryBuffer::whole_triangles);
            reveal(UnifiedGeometryBuffer::ids_ordered);
            reveal(UnifiedGeometryBuffer::vertices_tiled);
            reveal(UnifiedGeometryBuffer::indices_tiled);
            reveal(UnifiedGeometryBuffer::indices_in_model);
        }
        let info = ModelInfo {
            id: self.models_loaded,
            base_vertex: self.vertices.len(),
            index_start: self.indices.len(),
            index_count: indices.len(),
            texture_id,
        };
        let ghost new_vertices = vertices@;
        let ghost new_indices = indices@;
        self.models_loaded = self.models_loaded + 1;
        self.vertices.append(vertices);
        self.indices.append(indices);
        self.models.push(info);
        proof {
            let n = prev.models@.len() as int;
            assert(self.indices@.len() == prev.indices@.len() + new_indices.len());
            assert forall|k: int| 0 <= k < n implies #[trigger] self.model_vertices(k) == prev.model_vertices(k)
                && self.model_indices(k) == prev.model_indices(k) by {
                assert(self.vertex_end(k) == prev.vertex_end(k));
                assert(prev.vertex_end(k) <= prev.vertices@.len()) by {
                    if k + 1 < n {
                        assert(prev.models@[k + 1].base_vertex <= prev.vertex_end(k + 1));
                    }
                }
                assert(prev.models@[k].index_start + prev.models@[k].index_count <= prev.indices@.len()) by {
                    if k + 1 < n {
                        assert(prev.models@[k].index_start + prev.models@[k].index_count <= prev.models@[n - 1].index_start);
                    }
                }
                assert(self.model_vertices(k) =~= prev.model_vertices(k));
                assert(self.model_indices(k) =~= prev.model_indices(k));
            }
            assert(self.model_vertices(n) =~= new_vertices);
            assert(self.model_indices(n) =~= new_indices);
            assert(self.contents() =~= prev.contents().push((info.id, texture_id, new_vertices, new_indices)));
            assert forall|k: int, j: int|
                0 <= k < n + 1 && 0 <= j < self.models@[k].index_count implies #[trigger] self.model_indices(k)[j]
                    < self.vertex_end(k) - self.models@[k].base_vertex by {
                if k < n {
                    assert(self.model_indices(k) == prev.model_indices(k));
                    assert(prev.model_indices(k)[j] < prev.vertex_end(k) - prev.models@[k].base_vertex);
                    assert(self.vertex_end(k) == prev.vertex_end(k));
                } else {
                    assert(self.model_indices(k)[j] == new_indices[j]);
                }
            }
            assert forall|i: int, j: int| #![trigger self.models@[i], self.models@[j]] 0 <= i < j < n + 1 implies {
                &&& self.models@[i].id < self.models@[j].id
                &&& self.models@[i].base_vertex <= self.models@[j].base_vertex
                &&& self.models@[i].index_start + self.models@[i].index_count <= self.models@[j].index_start
            } by {
                if j == n {
                    assert(prev.models@[i].id < prev.models_loaded);
                    assert(prev.models@[i].base_vertex <= prev.vertex_end(i));
                    if i + 1 < n {
                        assert(prev.models@[i + 1].base_vertex <= prev.models@[n - 1].base_vertex);
                        assert(prev.models@[n - 1].base_vertex <= prev.vertex_end(n - 1));
                        assert(prev.models@[i].index_start + prev.models@[i].index_count <= prev.models@[n - 1].index_start);
                    }
                } else {
                    assert(prev.models@[i] == self.models@[i]);
                    assert(prev.models@[j] == self.models@[j]);
                }
            }
        }
        info.id
    }

    /// Removes the model with id `id`, with its vertices and indices, and moves the
    /// models after it down to close the gap. Returns whether there was such a model;
    /// if there was none the buffer is left as it was.
    #[verifier::rlimit(50)]
    pub fn remove_model(&mut self, id: usize) -> (removed: bool)
        requires
            old(self).well_formed(),
        ensures
            final(self).well_formed(),
            final(self).models_loaded == old(self).models_loaded,
            removed == exists|k: int|
                0 <= k < old(self).models@.len() && (#[trigger] old(self).models@[k]).id == id,
            !removed ==> *final(self) == *old(self),
            removed ==> exists|k: int|
                0 <= k < old(self).models@.len() && old(self).models@[k].id == id
                    && final(self).contents() == #[trigger] old(self).contents().remove(k),
    {
        let ghost prev = *self;
        let model_index = match self.get_model_index(id) {
            Some(k) => k,
            None => {
                return false;
            },
        };
        let info = self.models[model_index];
        let ghost k = model_index as int;
        let n_indices = self.indices.len();
        let n_vertices = self.vertices.len();
        proof {
            lemma_layout_bounds(prev, k);
        }
        // removing the model's vertex indices
        let index_end = info.index_start + info.index_count;
        let mut index_tail = self.indices.split_off(index_end);
        self.indices.truncate(info.index_start);
        self.indices.append(&mut index_tail);
        assert(self.indices@ =~= prev.indices@.subrange(0, info.index_start as int)
            + prev.indices@.subrange(index_end as int, prev.indices@.len() as int));
        // removing the model's vertices
        let vertex_count = if model_index == self.models.len() - 1 {
            self.vertices.len() - info.base_vertex
        } else {
            self.models[model_index + 1].base_vertex - info.base_vertex
        };
        let vertex_end = info.base_vertex + vertex_count;
        let mut vertex_tail = self.vertices.split_off(vertex_end);
        self.vertices.truncate(info.base_vertex);
        self.vertices.append(&mut vertex_tail);
        assert(self.vertices@ =~= prev.vertices@.subrange(0, info.base_vertex as int)
            + prev.vertices@.subrange(vertex_end as int, prev.vertices@.len() as int));
        let ghost kept_vertices = self.vertices@;
        let ghost kept_indices = self.indices@;
        // moving the models after it down
        let mut i = model_index + 1;
        while i < self.models.len()
            invariant
                model_index < prev.models@.len(),
                k == model_index,
                info == prev.models@[k],
                vertex_count == prev.vertex_end(k) - info.base_vertex,
                forall|j: int| k < j < prev.models@.len() ==>
                    info.index_start + info.index_count <= (#[trigger] prev.models@[j]).index_start
                    && prev.vertex_end(k) <= prev.models@[j].base_vertex,
                model_index < i <= self.models@.len(),
                self.models@.len() == prev.models@.len(),
                self.vertices@ == kept_vertices,
                self.indices@ == kept_indices,
                self.models_loaded == prev.models_loaded,
                forall|j: int| 0 <= j < k ==> #[trigger] self.models@[j] == prev.models@[j],
                forall|j: int| k < j < i ==> #[trigger] self.models@[j] == shifted(prev.models@[j], info.index_count, vertex_count),
                forall|j: int| i <= j < self.models@.len() ==> #[trigger] self.models@[j] == prev.models@[j],
            decreases self.models@.len() - i,
        {
            let mut m = self.models[i];
            proof {
                assert(k < i);
                assert(prev.models@[i as int] == m);
            }
            m.index_start = m.index_start - info.index_count;
            m.base_vertex = m.base_vertex - vertex_count;
            self.models.set(i, m);
            i = i + 1;
        }
        let ghost shifted_models = self.models@;
        self.models.remove(model_index);
        proof {
            lemma_removal_layout(prev, *self, shifted_models, k, vertex_count as int);
            assert(prev.models@[k].id == id);
        }
        true
    }

    /// Where in `vertices` the three corners of triangle `t` of the model at position
    /// `k` of `models` are: the model's first vertex plus the triangle's three indices.
    #[verifier::rlimit(30)]
    pub fn triangle_vertices(&self, k: usize, t: usize) -> (corners: (usize, usize, usize))
        requires
            self.well_formed(),
            k < self.models@.len(),
            3 * t + 2 < self.models@[k as int].index_count,
        ensures
            corners.0 == self.models@[k as int].base_vertex + self.model_indices(k as int)[3 * t],
            corners.1 == self.models@[k as int].base_vertex + self.model_indices(k as int)[3 * t + 1],
            corners.2 == self.models@[k as int].base_vertex + self.model_indices(k as int)[3 * t + 2],
            corners.0 < self.vertices@.len(),
            corners.1 < self.vertices@.len(),
            corners.2 < self.vertices@.len(),
    {
        proof {
            lemma_layout_bounds(*self, k as int);
            reveal(UnifiedGeometryBuffer::indices_in_model);
            assert(self.model_indices(k as int)[3 * t] < self.vertex_end(k as int) - self.models@[k as int].base_vertex);
            assert(self.model_indices(k as int)[3 * t + 1] < self.vertex_end(k as int) - self.models@[k as int].base_vertex);
            assert(self.model_indices(k as int)[3 * t + 2] < self.vertex_end(k as int) - self.models@[k as int].base_vertex);
        }
        let model = self.models[k];
        let n_indices = self.indices.len();
        let n_vertices = self.vertices.len();
        let first = model.index_start + 3 * t;
        let i0 = self.indices[first];
        let i1 = self.indices[first + 1];
        let i2 = self.indices[first + 2];
        assert(i0 == self.model_indices(k as int)[3 * t]);
        assert(i1 == self.model_indices(k as int)[3 * t + 1]);
        assert(i2 == self.model_indices(k as int)[3 * t + 2]);
        (model.base_vertex + i0, model.base_vertex + i1, model.base_vertex + i2)
    }

    /// The position in `models` of the model with id `id`, if there is one.
    #[verifier::rlimit(30)]
    pub fn get_model_index(&mut self, id: usize) -> (index: Option<usize>)
        requires
            old(self).well_formed(),
        ensures
            *final(self) == *old(self),
            match index {
                Some(k) => k < old(self).models@.len() && old(self).models@[k as int].id
                    == id,
                None => forall|k: int|
                    0 <= k < old(self).models@.len() ==> #[trigger] old(self).models@[k].id
                        != id,
            },
    {
        proof {
            reveal(UnifiedGeometryBuffer::ids_ordered);
        }
        let mut left: usize = 0;
        let mut right: usize = self.models.len();
        while left < right
            invariant
                self.ids_ordered(),
                left <= right <= self.models@.len(),
                forall|k: int|
                    0 <= k < left ==> #[trigger] self.models@[k].id < id,
                forall|k: int|
                    right <= k < self.models@.len() ==> #[trigger] self.models@[k].id > id,
            decreases right - left,
        {
            proof {
                reveal(UnifiedGeometryBuffer::ids_ordered);
            }
            let middle = left + (right - left) / 2;
            let mid_id = self.models[middle].id;
            if mid_id == id {
                return Some(middle);
            } else if mid_id < id {
                proof {
                    assert forall|k: int| 0 <= k < middle + 1 implies #[trigger] self.models@[k].id < id by {
                        if k < middle {
                            assert(self.models@[k].id < self.models@[middle as int].id);
                        }
                    }
                }
                left = middle + 1;
            } else {
                proof {
                    assert forall|k: int| middle <= k < self.models@.len() implies #[trigger] self.models@[k].id > id by {
                        if k > middle {
                            assert(self.models@[middle as int].id < self.models@[k].id);
                        }
                    }
                }
                right = middle;
            }
        }
        None
    }

    /// The record of the model with id `id`, if there is one.
    pub fn get_model(&mut self, id: usize) -> (model: Option<ModelInfo>)
        requires
            old(self).well_formed(),
        ensures
            *final(self) == *old(self),
            match model {
                Some(m) => exists|k: int|
                    0 <= k < old(self).models@.len() && old(self).models@[k] == m
                        && #[trigger] m.id == id,
                None => forall|k: int|
                    0 <= k < old(self).models@.len() ==> #[trigger] old(self).models@[k].id
                        != id,
            },
    {
        if let Some(model_index) = self.get_model_index(id) {
            return Some(self.models[model_index]);
        }
        return None;
    }
}


impl<V> Default for UnifiedGeometryBuffer<V> {
    /// An empty buffer.
    fn default() -> (ugb: Self)
        ensures
            ugb.well_formed(),
            ugb.contents() == Seq::<ModelContent<V>>::empty(),
            ugb.vertices@.len() == 0,
            ugb.indices@.len() == 0,
            ugb.models_loaded == 0,
    {
        Self::new()
    }
}

/// The vertices a mesh's corners make, one per corner, from the attribute lists
/// `positions`, `uvs` and `normals`; every vertex is opaque white.
pub open spec fn corner_vertices<P, T, N>(
    corners: Seq<Corner>,
    positions: Seq<P>,
    uvs: Seq<T>,
    normals: Seq<N>,
) -> Seq<Vertex<P, T, N>> {
    Seq::new(
        corners.len(),
        |i: int|
            Vertex {
                pos: positions[corners[i].position as int],
                uv: uvs[corners[i].uv as int],
                normal: normals[corners[i].normal as int],
                color: white(),
            },
    )
}

/// The indices `0, 1, ..., n - 1`.
pub open spec fn sequential_indices(n: nat) -> Seq<usize> {
    Seq::new(n, |i: int| i as usize)
}

impl<P: Copy, T: Copy, N: Copy> UnifiedGeometryBuffer<Vertex<P, T, N>> {
    /// Adds the model an OBJ mesh describes, drawn with texture 0, and returns its id.
    /// `positions`, `uvs` and `normals` are the mesh's attributes, read from the words
    /// that `mesh` records.
    pub fn load_model_obj(&mut self, mesh: &ObjMesh, positions: &[P], uvs: &[T], normals: &[N]) -> (id: usize)
        requires
            old(self).well_formed(),
            old(self).models_loaded < usize::MAX,
            mesh@.corners_in_range(),
            mesh@.corners.len() % 3 == 0,
            positions@.len() == mesh@.positions.len(),
            uvs@.len() == mesh@.uvs.len(),
            normals@.len() == mesh@.normals.len(),
        ensures
            id == old(self).models_loaded,
            final(self).models_loaded == old(self).models_loaded + 1,
            final(self).well_formed(),
            final(self).contents() == old(self).contents().push(
                (
                    id,
                    0usize,
                    corner_vertices(mesh@.corners, positions@, uvs@, normals@),
                    sequential_indices(mesh@.corners.len()),
                ),
            ),
    {
        self.load_textured_model_obj(mesh, positions, uvs, normals, 0)
    }

    /// Adds the model an OBJ mesh describes, drawn with texture `texture_id`, and
    /// returns its id. Every corner of the mesh becomes a vertex, opaque white, made of
    /// the attributes it names in `positions`, `uvs` and `normals` (the mesh's
    /// attributes, read from the words that `mesh` records); the model's indices are
    /// `0, 1, 2, ...`, one per corner, three per triangle.
    #[verifier::rlimit(30)]
    pub fn load_textured_model_obj(
        &mut self,
        mesh: &ObjMesh,
        positions: &[P],
        uvs: &[T],
        normals: &[N],
        texture_id: usize,
    ) -> (id: usize)
        requires
            old(self).well_formed(),
            old(self).models_loaded < usize::MAX,
            mesh@.corners_in_range(),
            mesh@.corners.len() % 3 == 0,
            positions@.len() == mesh@.positions.len(),
            uvs@.len() == mesh@.uvs.len(),
            normals@.len() == mesh@.normals.len(),
        ensures
            id == old(self).models_loaded,
            final(self).models_loaded == old(self).models_loaded + 1,
            final(self).well_formed(),
            final(self).contents() == old(self).contents().push(
                (
                    id,
                    texture_id,
                    corner_vertices(mesh@.corners, positions@, uvs@, normals@),
                    sequential_indices(mesh@.corners.len()),
                ),
            ),
    {
        let mut vertices: Vec<Vertex<P, T, N>> = Vec::new();
        let mut indices: Vec<usize> = Vec::new();
        let mut i: usize = 0;
        while i < mesh.corners.len()
            invariant
                i <= mesh@.corners.len(),
                mesh@.corners_in_range(),
                positions@.len() == mesh@.positions.len(),
                uvs@.len() == mesh@.uvs.len(),
                normals@.len() == mesh@.normals.len(),
                vertices@ == corner_vertices(mesh@.corners, positions@, uvs@, normals@).take(i as int),
                indices@ == sequential_indices(i as nat),
            decreases mesh@.corners.len() - i,
        {
            let c = mesh.corners[i];
            assert(mesh@.corners[i as int] == c);
            indices.push(vertices.len());
            vertices.push(
                Vertex {
                    pos: positions[c.position],
                    uv: uvs[c.uv],
                    normal: normals[c.normal],
                    color: Color { r: 255, g: 255, b: 255, a: 255 },
                },
            );
            i = i + 1;
            assert(vertices@ =~= corner_vertices(mesh@.corners, positions@, uvs@, normals@).take(i as int));
            assert(indices@ =~= sequential_indices(i as nat));
        }
        assert(vertices@ =~= corner_vertices(mesh@.corners, positions@, uvs@, normals@));
        let ghost all_vertices = vertices@;
        let ghost all_indices = indices@;
        self.append_model(&mut vertices, &mut indices, texture_id)
    }
}


/// Models of a well-formed buffer have distinct ids.
pub proof fn lemma_ids_distinct<V>(b: UnifiedGeometryBuffer<V>, i: int, j: int)
    requires
        b.well_formed(),
        0 <= i < b.models@.len(),
        0 <= j < b.models@.len(),
        i != j,
    ensures
        b.contents()[i].0 != b.contents()[j].0,
{
    reveal(UnifiedGeometryBuffer::ids_ordered);
    if i < j {
        assert(b.models@[i].id < b.models@[j].id);
    } else {
        assert(b.models@[j].id < b.models@[i].id);
    }
}

/// A model just added to a well-formed buffer is the only one with its id, so a
/// lookup of that id finds it, at the end of `models`.
pub proof fn lemma_added_model_is_unique<V>(
    prev: UnifiedGeometryBuffer<V>,
    new: UnifiedGeometryBuffer<V>,
    added: ModelContent<V>,
)
    requires
        prev.well_formed(),
        added.0 == prev.models_loaded,
        new.contents() == prev.contents().push(added),
    ensures
        new.contents()[prev.contents().len() as int] == added,
        forall|k: int|
            0 <= k < prev.contents().len() ==> #[trigger] new.contents()[k].0 != added.0,
{
    reveal(UnifiedGeometryBuffer::ids_ordered);
    assert forall|k: int| 0 <= k < prev.contents().len() implies #[trigger] new.contents()[k].0 != added.0 by {
        assert(new.contents()[k] == prev.contents()[k]);
        assert(prev.models@[k].id < prev.models_loaded);
    }
}

/// After model `k` of a well-formed buffer is removed, no model has its id, and the
/// others are there as they were, in the same order.
#[verifier::rlimit(30)]
pub proof fn lemma_removed_model_is_gone<V>(
    prev: UnifiedGeometryBuffer<V>,
    new: UnifiedGeometryBuffer<V>,
    k: int,
)
    requires
        prev.well_formed(),
        0 <= k < prev.contents().len(),
        new.contents() == prev.contents().remove(k),
    ensures
        forall|j: int| 0 <= j < new.contents().len() ==> #[trigger] new.contents()[j].0 != prev.contents()[k].0,
        forall|j: int| 0 <= j < k ==> #[trigger] new.contents()[j] == prev.contents()[j],
        forall|j: int| k <= j < new.contents().len() ==> #[trigger] new.contents()[j] == prev.contents()[j + 1],
{
    assert forall|j: int| 0 <= j < new.contents().len() implies #[trigger] new.contents()[j].0 != prev.contents()[k].0 by {
        if j < k {
            lemma_ids_distinct(prev, j, k);
        } else {
            lemma_ids_distinct(prev, j + 1, k);
        }
    }
}

/// Removing the model just added gives back the models there were before it.
pub proof fn lemma_remove_undoes_load<V>(
    prev: UnifiedGeometryBuffer<V>,
    loaded: UnifiedGeometryBuffer<V>,
    removed: UnifiedGeometryBuffer<V>,
    added: ModelContent<V>,
    k: int,
)
    requires
        prev.well_formed(),
        added.0 == prev.models_loaded,
        loaded.contents() == prev.contents().push(added),
        0 <= k < loaded.models@.len(),
        loaded.models@[k].id == added.0,
        removed.contents() == loaded.contents().remove(k),
    ensures
        removed.contents() == prev.contents(),
{
    lemma_added_model_is_unique(prev, loaded, added);
    let n = prev.contents().len() as int;
    if k < n {
        assert(loaded.contents()[k].0 == loaded.models@[k].id);
        assert(false);
    }
    assert(removed.contents() =~= prev.contents());
}

/// An id is never handed out twice: a model added after model `k` was removed gets an
/// id other than the removed model's.
pub proof fn lemma_ids_not_reused<V>(
    prev: UnifiedGeometryBuffer<V>,
    after_removal: UnifiedGeometryBuffer<V>,
    k: int,
)
    requires
        prev.well_formed(),
        0 <= k < prev.contents().len(),
        after_removal.models_loaded == prev.models_loaded,
    ensures
        after_removal.models_loaded != prev.contents()[k].0,
{
    reveal(UnifiedGeometryBuffer::ids_ordered);
    assert(prev.models@[k].id < prev.models_loaded);
}

/// `m` moved down by `index_count` indices and `vertex_count` vertices.
spec fn shifted(m: ModelInfo, index_count: usize, vertex_count: usize) -> ModelInfo {
    ModelInfo {
        base_vertex: (m.base_vertex - vertex_count) as usize,
        index_start: (m.index_start - index_count) as usize,
        ..m
    }
}

/// `new` is `prev` with model `k` removed, as [`UnifiedGeometryBuffer::remove_model`]
/// lays it out: the model's index range and vertex range (of `vertex_count` vertices)
/// cut out and the models after it moved down.
spec fn removal_of<V>(
    prev: UnifiedGeometryBuffer<V>,
    new: UnifiedGeometryBuffer<V>,
    k: int,
    vertex_count: int,
) -> bool {
    let m = prev.models@[k];
    let n = prev.models@.len();
    &&& prev.well_formed()
    &&& 0 <= k < n
    &&& vertex_count == prev.vertex_end(k) - m.base_vertex
    &&& new.models_loaded == prev.models_loaded
    &&& new.indices@ == prev.indices@.subrange(0, m.index_start as int) + prev.indices@.subrange(
        m.index_start + m.index_count,
        prev.indices@.len() as int,
    )
    &&& new.vertices@ == prev.vertices@.subrange(0, m.base_vertex as int) + prev.vertices@.subrange(
        m.base_vertex + vertex_count,
        prev.vertices@.len() as int,
    )
    &&& new.models@.len() == n - 1
    &&& forall|j: int| 0 <= j < k ==> #[trigger] new.models@[j] == prev.models@[j]
    &&& forall|j: int|
        k <= j < n - 1 ==> #[trigger] new.models@[j] == shifted(
            prev.models@[j + 1],
            m.index_count,
            vertex_count as usize,
        )
}

/// The position in `prev` of model `j` of the buffer left by removing model `k`.
spec fn position_before_removal(j: int, k: int) -> int {
    if j < k {
        j
    } else {
        j + 1
    }
}

/// Facts about the layout of a well-formed buffer that follow from its invariant.
#[verifier::rlimit(30)]
proof fn lemma_layout_bounds<V>(b: UnifiedGeometryBuffer<V>, k: int)
    requires
        b.well_formed(),
        0 <= k < b.models@.len(),
    ensures
        b.models@[k].base_vertex <= b.vertex_end(k) <= b.vertices@.len(),
        b.models@[k].index_start + b.models@[k].index_count <= b.indices@.len(),
        forall|j: int|
            k < j < b.models@.len() ==> b.vertex_end(k) <= (#[trigger] b.models@[j]).base_vertex
                && b.models@[k].index_start + b.models@[k].index_count <= b.models@[j].index_start,
{
    reveal(UnifiedGeometryBuffer::vertices_tiled);
    reveal(UnifiedGeometryBuffer::indices_tiled);
    let n = b.models@.len() as int;
    assert(b.models@[k].base_vertex <= b.vertex_end(k));
    if k + 1 < n {
        assert(b.models@[k + 1].base_vertex <= b.models@[n - 1].base_vertex);
        assert(b.models@[n - 1].base_vertex <= b.vertex_end(n - 1));
        assert(b.models@[k].index_start + b.models@[k].index_count <= b.models@[n - 1].index_start);
    }
    assert forall|j: int| k < j < n implies b.vertex_end(k) <= (#[trigger] b.models@[j]).base_vertex
        && b.models@[k].index_start + b.models@[k].index_count <= b.models@[j].index_start by {
        assert(b.models@[k].index_start + b.models@[k].index_count <= b.models@[j].index_start);
        if k + 1 < j {
            assert(b.models@[k + 1].base_vertex <= b.models@[j].base_vertex);
        }
    }
}

/// Where the models of the buffer left by a removal start and end.
#[verifier::rlimit(30)]
proof fn lemma_removal_ranges<V>(
    prev: UnifiedGeometryBuffer<V>,
    new: UnifiedGeometryBuffer<V>,
    k: int,
    vertex_count: int,
    j: int,
)
    requires
        removal_of(prev, new, k, vertex_count),
        0 <= j < new.models@.len(),
    ensures
        ({
            let oj = position_before_removal(j, k);
            let shift = if j < k { 0 } else { vertex_count };
            let ishift = if j < k { 0 } else { prev.models@[k].index_count as int };
            &&& new.models@[j].id == prev.models@[oj].id
            &&& new.models@[j].texture_id == prev.models@[oj].texture_id
            &&& new.models@[j].index_count == prev.models@[oj].index_count
            &&& new.models@[j].base_vertex == prev.models@[oj].base_vertex - shift
            &&& new.vertex_end(j) == prev.vertex_end(oj) - shift
            &&& new.models@[j].index_start == prev.models@[oj].index_start - ishift
            &&& new.model_vertices(j) == prev.model_vertices(oj)
            &&& new.model_indices(j) == prev.model_indices(oj)
            &&& new.models@[j].index_start + new.models@[j].index_count <= new.indices@.len()
        }),
{
    let n = prev.models@.len() as int;
    let oj = position_before_removal(j, k);
    let m = prev.models@[k];
    lemma_layout_bounds(prev, k);
    lemma_layout_bounds(prev, oj);
    if j < k {
        assert(new.models@[j] == prev.models@[j]);
        assert(prev.models@[j].base_vertex <= m.base_vertex);
        assert(prev.models@[j].index_start + prev.models@[j].index_count <= m.index_start);
        if j + 1 < k {
            assert(new.models@[j + 1] == prev.models@[j + 1]);
        } else {
            assert(j + 1 == k);
            if k + 1 < n {
                assert(new.models@[j + 1] == shifted(prev.models@[k + 1], m.index_count, vertex_count as usize));
            }
        }
        assert(new.vertex_end(j) == prev.vertex_end(j));
        assert(new.model_vertices(j) =~= prev.model_vertices(j));
        assert(new.model_indices(j) =~= prev.model_indices(j));
    } else {
        assert(new.models@[j] == shifted(prev.models@[j + 1], m.index_count, vertex_count as usize));
        if j + 1 < n - 1 {
            assert(new.models@[j + 1] == shifted(prev.models@[j + 2], m.index_count, vertex_count as usize));
            lemma_layout_bounds(prev, j + 1);
        }
        assert(new.vertex_end(j) == prev.vertex_end(j + 1) - vertex_count);
        assert(new.model_vertices(j) =~= prev.model_vertices(j + 1));
        assert(new.model_indices(j) =~= prev.model_indices(j + 1));
    }
}

/// The buffer left by removing model `k` of `prev` is well formed and holds the other
/// models of `prev`, unchanged and in order.
#[verifier::rlimit(30)]
proof fn lemma_removal_layout<V>(
    prev: UnifiedGeometryBuffer<V>,
    new: UnifiedGeometryBuffer<V>,
    shifted_models: Seq<ModelInfo>,
    k: int,
    vertex_count: int,
)
    requires
        prev.well_formed(),
        0 <= k < prev.models@.len(),
        vertex_count == prev.vertex_end(k) - prev.models@[k].base_vertex,
        new.models_loaded == prev.models_loaded,
        new.indices@ == prev.indices@.subrange(0, prev.models@[k].index_start as int)
            + prev.indices@.subrange(prev.models@[k].index_start + prev.models@[k].index_count, prev.indices@.len() as int),
        new.vertices@ == prev.vertices@.subrange(0, prev.models@[k].base_vertex as int)
            + prev.vertices@.subrange(prev.models@[k].base_vertex + vertex_count, prev.vertices@.len() as int),
        shifted_models.len() == prev.models@.len(),
        forall|j: int| 0 <= j < k ==> #[trigger] shifted_models[j] == prev.models@[j],
        forall|j: int| k < j < shifted_models.len() ==> #[trigger] shifted_models[j] == shifted(prev.models@[j], prev.models@[k].index_count, vertex_count as usize),
        new.models@ == shifted_models.remove(k),
    ensures
        new.well_formed(),
        new.contents() == prev.contents().remove(k),
{
    let n = prev.models@.len() as int;
    assert forall|j: int| k <= j < n - 1 implies #[trigger] new.models@[j] == shifted(
        prev.models@[j + 1], prev.models@[k].index_count, vertex_count as usize) by {
        assert(new.models@[j] == shifted_models[j + 1]);
    }
    assert(removal_of(prev, new, k, vertex_count));
    assert forall|j: int| 0 <= j < n - 1 implies #[trigger] new.contents()[j] == prev.contents().remove(k)[j] by {
        lemma_removal_ranges(prev, new, k, vertex_count, j);
    }
    assert(new.contents() =~= prev.contents().remove(k));
    lemma_removal_well_formed(prev, new, k, vertex_count);
}

/// The buffer left by a removal is well formed.
proof fn lemma_removal_well_formed<V>(
    prev: UnifiedGeometryBuffer<V>,
    new: UnifiedGeometryBuffer<V>,
    k: int,
    vertex_count: int,
)
    requires
        removal_of(prev, new, k, vertex_count),
    ensures
        new.well_formed(),
{
    lemma_removal_ids(prev, new, k, vertex_count);
    lemma_removal_vertices(prev, new, k, vertex_count);
    lemma_removal_indices(prev, new, k, vertex_count);
    lemma_removal_indices_in_model(prev, new, k, vertex_count);
    lemma_removal_whole_triangles(prev, new, k, vertex_count);
}

#[verifier::rlimit(30)]
proof fn lemma_removal_whole_triangles<V>(
    prev: UnifiedGeometryBuffer<V>,
    new: UnifiedGeometryBuffer<V>,
    k: int,
    vertex_count: int,
)
    requires
        removal_of(prev, new, k, vertex_count),
    ensures
        new.whole_triangles(),
{
    reveal(UnifiedGeometryBuffer::whole_triangles);
    assert forall|j: int| #![trigger new.models@[j]] 0 <= j < new.models@.len() implies new.models@[j].index_count % 3 == 0 by {
        lemma_removal_ranges(prev, new, k, vertex_count, j);
        assert(prev.models@[position_before_removal(j, k)].index_count % 3 == 0);
    }
}

#[verifier::rlimit(30)]
proof fn lemma_removal_ids<V>(
    prev: UnifiedGeometryBuffer<V>,
    new: UnifiedGeometryBuffer<V>,
    k: int,
    vertex_count: int,
)
    requires
        removal_of(prev, new, k, vertex_count),
    ensures
        new.ids_ordered(),
{
    let n = prev.models@.len() as int;
    reveal(UnifiedGeometryBuffer::ids_ordered);
    assert forall|i: int, j: int|
        #![trigger new.models@[i], new.models@[j]]
        0 <= i < j < n - 1 implies new.models@[i].id < new.models@[j].id by {
        lemma_removal_ranges(prev, new, k, vertex_count, i);
        lemma_removal_ranges(prev, new, k, vertex_count, j);
        assert(prev.models@[position_before_removal(i, k)].id < prev.models@[position_before_removal(j, k)].id);
    }
    assert forall|j: int| #![trigger new.models@[j]] 0 <= j < n - 1 implies new.models@[j].id < new.models_loaded by {
        lemma_removal_ranges(prev, new, k, vertex_count, j);
        assert(prev.models@[position_before_removal(j, k)].id < prev.models_loaded);
    }
}

#[verifier::rlimit(30)]
proof fn lemma_removal_vertices<V>(
    prev: UnifiedGeometryBuffer<V>,
    new: UnifiedGeometryBuffer<V>,
    k: int,
    vertex_count: int,
)
    requires
        removal_of(prev, new, k, vertex_count),
    ensures
        new.vertices_tiled(),
{
    let n = prev.models@.len() as int;
    let m = prev.models@[k];
    lemma_layout_bounds(prev, k);
    reveal(UnifiedGeometryBuffer::vertices_tiled);
    assert forall|i: int, j: int|
        #![trigger new.models@[i], new.models@[j]]
        0 <= i < j < n - 1 implies new.models@[i].base_vertex <= new.models@[j].base_vertex by {
        lemma_removal_ranges(prev, new, k, vertex_count, i);
        lemma_removal_ranges(prev, new, k, vertex_count, j);
        let oi = position_before_removal(i, k);
        let oj = position_before_removal(j, k);
        assert(prev.models@[oi].base_vertex <= prev.models@[oj].base_vertex);
        if i < k && k <= j {
            assert(prev.models@[oi].base_vertex <= m.base_vertex);
        }
    }
    assert forall|j: int| #![trigger new.models@[j]] 0 <= j < n - 1 implies new.models@[j].base_vertex
        <= new.vertex_end(j) by {
        lemma_removal_ranges(prev, new, k, vertex_count, j);
        assert(prev.models@[position_before_removal(j, k)].base_vertex <= prev.vertex_end(position_before_removal(j, k)));
    }
    if n - 1 > 0 {
        lemma_removal_ranges(prev, new, k, vertex_count, 0);
    } else {
        assert(new.vertices@.len() == 0);
    }
}

proof fn lemma_removal_indices<V>(
    prev: UnifiedGeometryBuffer<V>,
    new: UnifiedGeometryBuffer<V>,
    k: int,
    vertex_count: int,
)
    requires
        removal_of(prev, new, k, vertex_count),
    ensures
        new.indices_tiled(),
{
    lemma_removal_indices_ordered(prev, new, k, vertex_count);
    lemma_removal_indices_adjacent(prev, new, k, vertex_count);
    lemma_removal_indices_ends(prev, new, k, vertex_count);
    reveal(UnifiedGeometryBuffer::indices_tiled);
}

#[verifier::rlimit(30)]
proof fn lemma_removal_indices_ordered<V>(
    prev: UnifiedGeometryBuffer<V>,
    new: UnifiedGeometryBuffer<V>,
    k: int,
    vertex_count: int,
)
    requires
        removal_of(prev, new, k, vertex_count),
    ensures
        forall|i: int, j: int|
            #![trigger new.models@[i], new.models@[j]]
            0 <= i < j < new.models@.len() ==> new.models@[i].index_start + new.models@[i].index_count
                <= new.models@[j].index_start,
{
    let n = prev.models@.len() as int;
    let m = prev.models@[k];
    lemma_layout_bounds(prev, k);
    reveal(UnifiedGeometryBuffer::indices_tiled);
    assert forall|i: int, j: int|
        #![trigger new.models@[i], new.models@[j]]
        0 <= i < j < n - 1 implies new.models@[i].index_start + new.models@[i].index_count
            <= new.models@[j].index_start by {
        lemma_removal_ranges(prev, new, k, vertex_count, i);
        lemma_removal_ranges(prev, new, k, vertex_count, j);
        let oi = position_before_removal(i, k);
        let oj = position_before_removal(j, k);
        assert(prev.models@[oi].index_start + prev.models@[oi].index_count <= prev.models@[oj].index_start);
        if i < k && k <= j {
            assert(prev.models@[oi].index_start + prev.models@[oi].index_count <= m.index_start);
        }
    }
}

#[verifier::rlimit(30)]
proof fn lemma_removal_indices_adjacent<V>(
    prev: UnifiedGeometryBuffer<V>,
    new: UnifiedGeometryBuffer<V>,
    k: int,
    vertex_count: int,
)
    requires
        removal_of(prev, new, k, vertex_count),
    ensures
        forall|i: int, j: int|
            #![trigger new.models@[i], new.models@[j]]
            0 <= i && j == i + 1 && j < new.models@.len() ==> new.models@[j].index_start
                == new.models@[i].index_start + new.models@[i].index_count,
{
    let n = prev.models@.len() as int;
    let m = prev.models@[k];
    reveal(UnifiedGeometryBuffer::indices_tiled);
    assert forall|i: int, j: int|
        #![trigger new.models@[i], new.models@[j]]
        0 <= i && j == i + 1 && j < n - 1 implies new.models@[j].index_start
            == new.models@[i].index_start + new.models@[i].index_count by {
        lemma_removal_ranges(prev, new, k, vertex_count, j);
        lemma_removal_ranges(prev, new, k, vertex_count, i);
        let oj = position_before_removal(j, k);
        if j == k {
            assert(prev.models@[k + 1].index_start == m.index_start + m.index_count);
            assert(m.index_start == prev.models@[k - 1].index_start + prev.models@[k - 1].index_count);
        } else {
            assert(prev.models@[oj].index_start == prev.models@[oj - 1].index_start
                + prev.models@[oj - 1].index_count);
        }
    }
}

#[verifier::rlimit(30)]
proof fn lemma_removal_indices_ends<V>(
    prev: UnifiedGeometryBuffer<V>,
    new: UnifiedGeometryBuffer<V>,
    k: int,
    vertex_count: int,
)
    requires
        removal_of(prev, new, k, vertex_count),
    ensures
        ({
            let models = new.models@;
            let n = models.len();
            &&& n == 0 ==> new.indices@.len() == 0
            &&& n > 0 ==> models[0].index_start == 0
            &&& n > 0 ==> models[n - 1].index_start + models[n - 1].index_count == new.indices@.len()
        }),
{
    let n = prev.models@.len() as int;
    let m = prev.models@[k];
    lemma_layout_bounds(prev, k);
    reveal(UnifiedGeometryBuffer::indices_tiled);
    if n - 1 > 0 {
        lemma_removal_ranges(prev, new, k, vertex_count, 0);
        lemma_removal_ranges(prev, new, k, vertex_count, n - 2);
        if k == 0 {
            assert(prev.models@[1].index_start == m.index_start + m.index_count);
        }
        if k == n - 1 {
            assert(prev.models@[n - 1].index_start == prev.models@[n - 2].index_start
                + prev.models@[n - 2].index_count);
        }
    } else {
        assert(new.indices@.len() == 0);
    }
}

#[verifier::rlimit(30)]
proof fn lemma_removal_indices_in_model<V>(
    prev: UnifiedGeometryBuffer<V>,
    new: UnifiedGeometryBuffer<V>,
    k: int,
    vertex_count: int,
)
    requires
        removal_of(prev, new, k, vertex_count),
    ensures
        new.indices_in_model(),
{
    let n = prev.models@.len() as int;
    reveal(UnifiedGeometryBuffer::indices_in_model);
    assert forall|j: int, t: int|
        0 <= j < n - 1 && 0 <= t < new.models@[j].index_count implies #[trigger] new.model_indices(j)[t]
            < new.vertex_end(j) - new.models@[j].base_vertex by {
        lemma_removal_ranges(prev, new, k, vertex_count, j);
        let oj = position_before_removal(j, k);
        assert(prev.model_indices(oj)[t] < prev.vertex_end(oj) - prev.models@[oj].base_vertex);
    }
}

} // verus!
