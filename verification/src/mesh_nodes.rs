use crate::common::create_info::MeshNodeCreateInfo;
use crate::common::errors::MeshNodesError;
use crate::objects::animated_object::MeshRenderingInfo;
use vstd::hash_map::StringHashMap;
use vstd::prelude::*;

verus! {

/// Indices of assets by name: the meshes, or the materials, that have been
/// loaded.
pub struct NameTable {
    indices: StringHashMap<u32>,
}

impl NameTable {
    /// The index that each name stands for.
    pub closed spec fn view(&self) -> Map<Seq<char>, u32> {
        self.indices@
    }

    /// A table without names.
    pub fn new() -> (table: NameTable)
        ensures
            table@ == Map::<Seq<char>, u32>::empty(),
    {
        NameTable { indices: StringHashMap::new() }
    }

    /// Lets `name` stand for `index`, whatever it stood for before.
    pub fn insert(&mut self, name: &str, index: u32)
        ensures
            final(self)@ == old(self)@.insert(name@, index),
    {
        self.indices.insert(name.to_owned(), index);
    }

    /// The index that `name` stands for, if it stands for any.
    pub fn get(&self, name: &str) -> (index: Option<u32>)
        ensures
            index == if self@.contains_key(name@) {
                Some(self@[name@])
            } else {
                None
            },
    {
        match self.indices.get(name) {
            Some(index) => Some(*index),
            None => None,
        }
    }
}

/// The meshes of one model instance, each with the material it is drawn with,
/// and for each mesh name the position of the mesh that was listed last under
/// that name.
pub struct MeshNodes {
    model_name: String,
    mesh_rendering_info: Vec<MeshRenderingInfo>,
    mesh_rendering_info_index_map: StringHashMap<usize>,
}

/// Names in `names`, as plain values.
pub open spec fn names_view(names: Seq<String>) -> Seq<Seq<char>> {
    Seq::new(names.len(), |i: int| names[i]@)
}

/// Names of the meshes in `entries`, in order.
pub open spec fn entry_names(entries: Seq<(String, MeshRenderingInfo)>) -> Seq<Seq<char>> {
    Seq::new(entries.len(), |i: int| entries[i].0@)
}

/// Rendering infos of the meshes in `entries`, in order.
pub open spec fn entry_infos(entries: Seq<(String, MeshRenderingInfo)>) -> Seq<MeshRenderingInfo> {
    Seq::new(entries.len(), |i: int| entries[i].1)
}

/// For each of the first `k` names its last position among them.
pub open spec fn index_of(names: Seq<Seq<char>>, k: nat) -> Map<Seq<char>, usize>
    decreases k,
{
    if k == 0 {
        Map::empty()
    } else {
        index_of(names, (k - 1) as nat).insert(names[k - 1], (k - 1) as usize)
    }
}

/// The meshes to list, each as the name of the mesh and the name of its
/// material. Without create infos these are all meshes of the model, drawn
/// with the material `Default`, and none where the model is not known. With
/// create infos they are what the create infos name.
pub open spec fn requests(
    create_info: Seq<MeshNodeCreateInfo>,
    model_meshes: Option<Seq<Seq<char>>>,
) -> Seq<(Seq<char>, Seq<char>)> {
    if create_info.len() == 0 {
        match model_meshes {
            Some(names) => Seq::new(names.len(), |i: int| (names[i], "Default"@)),
            None => Seq::empty(),
        }
    } else {
        Seq::new(
            create_info.len(),
            |i: int| (create_info[i].mesh_name@, create_info[i].material_name@),
        )
    }
}

/// Why a request cannot be resolved, if it cannot: its mesh is looked up
/// first, then its material.
pub open spec fn failure(
    request: (Seq<char>, Seq<char>),
    meshes: Map<Seq<char>, u32>,
    materials: Map<Seq<char>, u32>,
) -> Option<MeshNodesError> {
    if !meshes.contains_key(request.0) {
        Some(MeshNodesError::MeshNotFound)
    } else if !materials.contains_key(request.1) {
        Some(MeshNodesError::MaterialNotFound)
    } else {
        None
    }
}

/// The failure of the first among the first `k` requests that cannot be
/// resolved.
pub open spec fn first_failure(
    reqs: Seq<(Seq<char>, Seq<char>)>,
    k: nat,
    meshes: Map<Seq<char>, u32>,
    materials: Map<Seq<char>, u32>,
) -> Option<MeshNodesError>
    decreases k,
{
    if k == 0 {
        None
    } else {
        match first_failure(reqs, (k - 1) as nat, meshes, materials) {
            Some(e) => Some(e),
            None => failure(reqs[k - 1], meshes, materials),
        }
    }
}

/// The rendering infos that the requests resolve to.
pub open spec fn resolved(
    reqs: Seq<(Seq<char>, Seq<char>)>,
    meshes: Map<Seq<char>, u32>,
    materials: Map<Seq<char>, u32>,
) -> Seq<MeshRenderingInfo> {
    Seq::new(
        reqs.len(),
        |i: int|
            MeshRenderingInfo { mesh_index: meshes[reqs[i].0], material_index: materials[reqs[i].1] },
    )
}

/// The mesh names of the requests.
pub open spec fn request_names(reqs: Seq<(Seq<char>, Seq<char>)>) -> Seq<Seq<char>> {
    Seq::new(reqs.len(), |i: int| reqs[i].0)
}

/// `i` is the first position at which `infos` holds mesh `mesh_index`.
pub open spec fn is_first_with_mesh(infos: Seq<MeshRenderingInfo>, mesh_index: u32, i: int) -> bool {
    &&& 0 <= i < infos.len()
    &&& infos[i].mesh_index == mesh_index
    &&& forall|j: int| 0 <= j < i ==> infos[j].mesh_index != mesh_index
}

/// The requests in `v` as plain values.
pub open spec fn pairs_view(v: Seq<(String, String)>) -> Seq<(Seq<char>, Seq<char>)> {
    Seq::new(v.len(), |i: int| (v[i].0@, v[i].1@))
}

/// The names of `model_meshes` as plain values.
pub open spec fn meshes_view(model_meshes: Option<&Vec<String>>) -> Option<Seq<Seq<char>>> {
    match model_meshes {
        Some(names) => Some(names_view(names@)),
        None => None,
    }
}

/// Lists the meshes to resolve.
fn collect_requests(create_info: &Vec<MeshNodeCreateInfo>, model_meshes: Option<&Vec<String>>) -> (reqs:
    Vec<(String, String)>)
    ensures
        pairs_view(reqs@) == requests(create_info@, meshes_view(model_meshes)),
{
    let mut reqs: Vec<(String, String)> = Vec::new();
    if create_info.len() == 0 {
        if let Some(names) = model_meshes {
            let n: usize = names.len();
            let mut k: usize = 0;
            while k < n
                invariant
                    n == names@.len(),
                    0 <= k <= n,
                    reqs@.len() == k,
                    forall|i: int|
                        0 <= i < k ==> (#[trigger] reqs@[i]).0@ == names@[i]@ && reqs@[i].1@
                            == "Default"@,
                decreases n - k,
            {
                reqs.push((names[k].clone(), "Default".to_owned()));
                k += 1;
            }
        }
    } else {
        let n: usize = create_info.len();
        let mut k: usize = 0;
        while k < n
            invariant
                n == create_info@.len(),
                0 <= k <= n,
                reqs@.len() == k,
                forall|i: int|
                    0 <= i < k ==> (#[trigger] reqs@[i]).0@ == create_info@[i].mesh_name@
                        && reqs@[i].1@ == create_info@[i].material_name@,
            decreases n - k,
        {
            reqs.push((create_info[k].mesh_name.clone(), create_info[k].material_name.clone()));
            k += 1;
        }
    }
    assert(pairs_view(reqs@) =~= requests(create_info@, meshes_view(model_meshes)));
    reqs
}

impl MeshNodes {
    /// Name of the model.
    pub closed spec fn name(&self) -> Seq<char> {
        self.model_name@
    }

    /// Rendering infos, in the order in which the meshes were listed.
    pub closed spec fn infos(&self) -> Seq<MeshRenderingInfo> {
        self.mesh_rendering_info@
    }

    /// For each mesh name the position of its rendering info.
    pub closed spec fn index(&self) -> Map<Seq<char>, usize> {
        self.mesh_rendering_info_index_map@
    }

    /// Every position in the index names a rendering info.
    pub open spec fn wf(&self) -> bool {
        forall|name: Seq<char>|
            (#[trigger] self.index().contains_key(name)) ==> self.index()[name] < self.infos().len()
    }

    /// Lists the meshes of a model instance and resolves their names.
    ///
    /// Without create infos every mesh of the model is listed with the
    /// material `Default`; `model_meshes` holds the names of the model's
    /// meshes, and is `None` where the model is not known, which gives an
    /// instance without meshes. With create infos the meshes and materials
    /// that they name are listed. `meshes` and `materials` give the index of
    /// each loaded mesh and material. The first name without index fails the
    /// construction; of one request the mesh is looked up first.
    pub fn new(
        model_name: &str,
        create_info: &Vec<MeshNodeCreateInfo>,
        model_meshes: Option<&Vec<String>>,
        meshes: &NameTable,
        materials: &NameTable,
    ) -> (r: Result<MeshNodes, MeshNodesError>)
        ensures
            ({
                let reqs = requests(create_info@, meshes_view(model_meshes));
                match r {
                    Ok(nodes) => {
                        &&& first_failure(reqs, reqs.len(), meshes@, materials@) is None
                        &&& nodes.wf()
                        &&& nodes.name() == model_name@
                        &&& nodes.infos() == resolved(reqs, meshes@, materials@)
                        &&& nodes.index() == index_of(request_names(reqs), reqs.len())
                    },
                    Err(e) => first_failure(reqs, reqs.len(), meshes@, materials@) == Some(e),
                }
            }),
    {
        let reqs = collect_requests(create_info, model_meshes);
        let ghost want = requests(create_info@, meshes_view(model_meshes));
        let mut entries: Vec<(String, MeshRenderingInfo)> = Vec::new();
        let n: usize = reqs.len();
        let mut k: usize = 0;
        while k < n
            invariant
                n == reqs@.len(),
                pairs_view(reqs@) == want,
                want == requests(create_info@, meshes_view(model_meshes)),
                0 <= k <= n,
                first_failure(want, k as nat, meshes@, materials@) is None,
                entries@.len() == k,
                forall|i: int|
                    0 <= i < k ==> (#[trigger] entries@[i]).0@ == want[i].0 && entries@[i].1
                        == resolved(want, meshes@, materials@)[i],
            decreases n - k,
        {
            assert(pairs_view(reqs@)[k as int] == want[k as int]);
            let mesh_index: u32 = match meshes.get(reqs[k].0.as_str()) {
                Some(index) => index,
                None => {
                    proof {
                        assert(failure(want[k as int], meshes@, materials@) == Some(
                            MeshNodesError::MeshNotFound,
                        ));
                        lemma_failure_stays(want, (k + 1) as nat, n as nat, meshes@, materials@);
                    }
                    return Err(MeshNodesError::MeshNotFound);
                },
            };
            let material_index: u32 = match materials.get(reqs[k].1.as_str()) {
                Some(index) => index,
                None => {
                    proof {
                        assert(failure(want[k as int], meshes@, materials@) == Some(
                            MeshNodesError::MaterialNotFound,
                        ));
                        lemma_failure_stays(want, (k + 1) as nat, n as nat, meshes@, materials@);
                    }
                    return Err(MeshNodesError::MaterialNotFound);
                },
            };
            entries.push((reqs[k].0.clone(), MeshRenderingInfo { mesh_index, material_index }));
            k += 1;
        }
        let nodes = MeshNodes::from_entries(model_name, entries);
        assert(entry_names(entries@) =~= request_names(want));
        assert(nodes.infos() =~= resolved(want, meshes@, materials@));
        Ok(nodes)
    }

    /// Lists meshes whose names have been resolved already, keeping their
    /// order.
    pub fn from_entries(model_name: &str, entries: Vec<(String, MeshRenderingInfo)>) -> (nodes: Self)
        ensures
            nodes.wf(),
            nodes.name() == model_name@,
            nodes.infos() == entry_infos(entries@),
            nodes.index() == index_of(entry_names(entries@), entries@.len()),
    {
        let mut mesh_rendering_info: Vec<MeshRenderingInfo> = Vec::new();
        let mut mesh_rendering_info_index_map: StringHashMap<usize> = StringHashMap::new();
        let n: usize = entries.len();
        let mut k: usize = 0;
        while k < n
            invariant
                n == entries@.len(),
                0 <= k <= n,
                mesh_rendering_info@.len() == k,
                forall|i: int| 0 <= i < k ==> #[trigger] mesh_rendering_info@[i] == entries@[i].1,
                mesh_rendering_info_index_map@ == index_of(entry_names(entries@), k as nat),
                forall|name: Seq<char>|
                    (#[trigger] mesh_rendering_info_index_map@.contains_key(name))
                        ==> mesh_rendering_info_index_map@[name] < k,
            decreases n - k,
        {
            mesh_rendering_info.push(entries[k].1);
            mesh_rendering_info_index_map.insert(entries[k].0.clone(), mesh_rendering_info.len() - 1);
            k += 1;
        }
        let nodes = MeshNodes {
            model_name: model_name.to_owned(),
            mesh_rendering_info,
            mesh_rendering_info_index_map,
        };
        assert(nodes.infos() =~= entry_infos(entries@));
        nodes
    }

    pub fn get_model_name(&self) -> (name: &String)
        ensures
            name@ == self.name(),
    {
        &self.model_name
    }

    /// Material of the mesh called `mesh_name`, or 0 if no mesh has that
    /// name.
    pub fn get_mesh_material_index(&self, mesh_name: &str) -> (material: u32)
        requires
            self.wf(),
        ensures
            material == if self.index().contains_key(mesh_name@) {
                self.infos()[self.index()[mesh_name@] as int].material_index
            } else {
                0
            },
    {
        match self.mesh_rendering_info_index_map.get(mesh_name) {
            Some(index) => {
                assert(self.index().contains_key(mesh_name@));
                self.mesh_rendering_info[*index].material_index
            },
            None => 0,
        }
    }

    /// Gives the first mesh with index `mesh_index` the material
    /// `material_index`; without such a mesh nothing changes.
    pub fn set_mesh_material_by_mesh_index(&mut self, mesh_index: u32, material_index: u32)
        ensures
            final(self).name() == old(self).name(),
            final(self).index() == old(self).index(),
            final(self).infos().len() == old(self).infos().len(),
            forall|i: int|
                is_first_with_mesh(old(self).infos(), mesh_index, i) ==> final(self).infos()
                    == old(self).infos().update(
                    i,
                    (MeshRenderingInfo { mesh_index, material_index }),
                ),
            (forall|i: int|
                0 <= i < old(self).infos().len() ==> old(self).infos()[i].mesh_index != mesh_index)
                ==> final(self).infos() == old(self).infos(),
    {
        let n: usize = self.mesh_rendering_info.len();
        let mut k: usize = 0;
        while k < n
            invariant
                *self == *old(self),
                n == self.mesh_rendering_info@.len(),
                0 <= k <= n,
                forall|j: int| 0 <= j < k ==> self.mesh_rendering_info@[j].mesh_index != mesh_index,
            decreases n - k,
        {
            if self.mesh_rendering_info[k].mesh_index == mesh_index {
                self.mesh_rendering_info.set(k, MeshRenderingInfo { mesh_index, material_index });
                return ;
            }
            k += 1;
        }
    }

    pub fn get_mesh_rendering_info(&self) -> (infos: &Vec<MeshRenderingInfo>)
        ensures
            infos@ == self.infos(),
    {
        &self.mesh_rendering_info
    }
}

/// The index holds a name exactly if one of the first `k` names is that name,
/// and then it gives the last position of the name among them.
pub proof fn lemma_index_of(names: Seq<Seq<char>>, k: nat, name: Seq<char>)
    requires
        k <= names.len() <= usize::MAX,
    ensures
        index_of(names, k).contains_key(name) <==> exists|i: int|
            0 <= i < k && #[trigger] names[i] == name,
        index_of(names, k).contains_key(name) ==> {
            let p = index_of(names, k)[name];
            &&& p < k
            &&& names[p as int] == name
            &&& forall|j: int| p < j < k ==> #[trigger] names[j] != name
        },
    decreases k,
{
    if k > 0 {
        lemma_index_of(names, (k - 1) as nat, name);
        if names[k - 1] != name && index_of(names, k).contains_key(name) {
            let i = choose|i: int| 0 <= i < k - 1 && #[trigger] names[i] == name;
            assert(names[i] == name);
        }
    }
}

/// Once a request has failed, the failure stays the first one.
pub proof fn lemma_failure_stays(
    reqs: Seq<(Seq<char>, Seq<char>)>,
    k: nat,
    m: nat,
    meshes: Map<Seq<char>, u32>,
    materials: Map<Seq<char>, u32>,
)
    requires
        k <= m,
        first_failure(reqs, k, meshes, materials) is Some,
    ensures
        first_failure(reqs, m, meshes, materials) == first_failure(reqs, k, meshes, materials),
    decreases m - k,
{
    if k < m {
        lemma_failure_stays(reqs, k, (m - 1) as nat, meshes, materials);
    }
}

} // verus!
