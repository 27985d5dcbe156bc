//! The catalogue of component kinds that a ship layout may place.

use vstd::prelude::*;

verus! {

/// Identifies a component kind: its position in the catalogue.
pub type ComponentId = u32;

/// The placement rules of a component kind.
#[derive(Debug, Clone, Copy, PartialEq, Eq, Structural)]
pub struct ComponentProperties {
    /// Cells of this kind must form an unbroken run back to column 0.
    pub require_border_back: bool,
    /// Cells of this kind must form an unbroken run up to the last column.
    pub require_border_front: bool,
    /// This kind may touch components of any other kind.
    pub connect_rooms: bool,
    /// This kind may sit on the outer edge of the layout.
    pub connect_outside: bool,
}

impl ComponentProperties {
    /// Properties with every rule switched off.
    pub fn new() -> (properties: Self)
        ensures
            !properties.require_border_back,
            !properties.require_border_front,
            !properties.connect_rooms,
            !properties.connect_outside,
    {
        ComponentProperties {
            require_border_back: false,
            require_border_front: false,
            connect_rooms: false,
            connect_outside: false,
        }
    }
}

/// One entry of the catalogue.
#[derive(Debug, Clone)]
pub struct ComponentDef {
    pub id: ComponentId,
    pub code: String,
    pub properties: ComponentProperties,
}

/// The catalogue: component kinds in the order they were added, each
/// identified by its position.
#[derive(Debug)]
pub struct ShipDesignRepository {
    components: Vec<ComponentDef>,
}

impl View for ShipDesignRepository {
    type V = Seq<ComponentDef>;

    closed spec fn view(&self) -> Seq<ComponentDef> {
        self.components@
    }
}

impl Clone for ShipDesignRepository {
    fn clone(&self) -> (copy: Self)
        ensures
            copy@ == self@,
    {
        proof {
            use_type_invariant(self);
        }
        let mut components: Vec<ComponentDef> = Vec::new();
        let mut i: usize = 0;
        while i < self.components.len()
            invariant
                i <= self.components.len(),
                components@ == self.components@.take(i as int),
            decreases self.components.len() - i,
        {
            let def = &self.components[i];
            components.push(
                ComponentDef { id: def.id, code: def.code.clone(), properties: def.properties },
            );
            assert(components@ =~= self.components@.take(i + 1));
            i = i + 1;
        }
        assert(components@ =~= self.components@);
        ShipDesignRepository { components }
    }
}

/// `index` is the first entry of `defs` whose code is `code`.
pub open spec fn is_first_with_code(defs: Seq<ComponentDef>, code: Seq<char>, index: int) -> bool {
    &&& 0 <= index < defs.len()
    &&& defs[index].code@ == code
    &&& forall|earlier: int| 0 <= earlier < index ==> defs[earlier].code@ != code
}

/// Some entry of `defs` has the code `code`.
pub open spec fn has_code(defs: Seq<ComponentDef>, code: Seq<char>) -> bool {
    exists|index: int| 0 <= index < defs.len() && defs[index].code@ == code
}

impl ShipDesignRepository {
    #[verifier::type_invariant]
    spec fn ids_are_positions(&self) -> bool {
        &&& self.components.len() <= u32::MAX
        &&& forall|i: int| 0 <= i < self.components.len() ==> self.components@[i].id == i
    }

    /// An empty catalogue.
    pub fn new() -> (repo: Self)
        ensures
            repo@.len() == 0,
    {
        ShipDesignRepository { components: Vec::new() }
    }

    /// Appends a component kind and returns its id, the number of kinds
    /// that were there before.
    pub fn add_component_def(&mut self, code: &str, properties: ComponentProperties) -> (id:
        ComponentId)
        requires
            old(self)@.len() < u32::MAX,
        ensures
            id == old(self)@.len(),
            final(self)@.len() == old(self)@.len() + 1,
            final(self)@.take(id as int) == old(self)@,
            final(self)@[id as int].id == id,
            final(self)@[id as int].code@ == code@,
            final(self)@[id as int].properties == properties,
    {
        proof {
            use_type_invariant(&*self);
        }
        let mut taken = ShipDesignRepository::new();
        core::mem::swap(self, &mut taken);
        let ShipDesignRepository { mut components } = taken;
        let next_id = components.len() as u32;
        components.push(ComponentDef { id: next_id, code: code.to_owned(), properties });
        assert(components@.take(next_id as int) =~= old(self).components@);
        *self = ShipDesignRepository { components };
        next_id
    }

    /// The entry with the given id.
    pub fn get_component(&self, id: ComponentId) -> (def: &ComponentDef)
        requires
            id < self@.len(),
        ensures
            *def == self@[id as int],
            def.id == id,
    {
        proof {
            use_type_invariant(self);
        }
        &self.components[id as usize]
    }

    /// All entries, in the order they were added; each entry's id is its
    /// position.
    pub fn list_components(&self) -> (defs: &Vec<ComponentDef>)
        ensures
            defs@ == self@,
            defs@.len() <= u32::MAX,
            forall|i: int| 0 <= i < defs@.len() ==> defs@[i].id == i,
    {
        proof {
            use_type_invariant(self);
        }
        &self.components
    }

    /// The position of the first entry whose code is `code`.
    fn position_by_code(&self, code: &str) -> (found: Option<usize>)
        ensures
            found is Some <==> has_code(self@, code@),
            found is Some ==> is_first_with_code(self@, code@, found->0 as int),
    {
        let wanted = code.to_owned();
        let mut i: usize = 0;
        while i < self.components.len()
            invariant
                i <= self.components.len(),
                wanted@ == code@,
                forall|earlier: int| 0 <= earlier < i ==> self.components@[earlier].code@ != code@,
            decreases self.components.len() - i,
        {
            if self.components[i].code == wanted {
                return Some(i);
            }
            i = i + 1;
        }
        None
    }

    /// The first entry whose code is `code`, if there is one.
    pub fn get_by_code(&self, code: &str) -> (def: Option<&ComponentDef>)
        ensures
            def is Some <==> has_code(self@, code@),
            def is Some ==> exists|index: int|
                is_first_with_code(self@, code@, index) && *def->0 == self@[index],
    {
        match self.position_by_code(code) {
            Some(i) => Some(&self.components[i]),
            None => None,
        }
    }

    /// The id of the first entry whose code is `code`, if there is one.
    pub fn get_id_by_code(&self, code: &str) -> (id: Option<ComponentId>)
        ensures
            id is Some <==> has_code(self@, code@),
            id is Some ==> is_first_with_code(self@, code@, id->0 as int),
    {
        proof {
            use_type_invariant(self);
        }
        match self.position_by_code(code) {
            Some(i) => Some(self.components[i].id),
            None => None,
        }
    }
}

} // verus!
