//! The things that exist from the start and never change: sites, their
//! kitchens and stations, and the brands' menu items.

use vstd::prelude::*;
use crate::geo::{Point, TileCode};
use crate::idents::{BrandId, KitchenId, MenuItemId, SiteId, StationId};

verus! {

/// The kind of an object in the objects table.
#[derive(Debug, Clone, Copy, PartialEq, Eq, Hash, Structural)]
pub enum ObjectLabel {
    Site,
    Kitchen,
    Station,
    Brand,
    MenuItem,
}

impl ObjectLabel {
    /// The label as it is written in the objects table.
    pub open spec fn spec_text(self) -> Seq<char> {
        match self {
            ObjectLabel::Site => "site"@,
            ObjectLabel::Kitchen => "kitchen"@,
            ObjectLabel::Station => "station"@,
            ObjectLabel::Brand => "brand"@,
            ObjectLabel::MenuItem => "menu_item"@,
        }
    }

    /// The label as it is written in the objects table.
    pub fn as_str(&self) -> (s: &'static str)
        ensures
            s@ == self.spec_text(),
    {
        match self {
            ObjectLabel::Site => "site",
            ObjectLabel::Kitchen => "kitchen",
            ObjectLabel::Station => "station",
            ObjectLabel::Brand => "brand",
            ObjectLabel::MenuItem => "menu_item",
        }
    }
}

/// The kind of a station, and so the kind of work that can be done at it.
#[derive(Debug, Clone, Copy, PartialEq, Eq, Hash, Structural)]
pub enum KitchenStation {
    Unspecified,
    Workstation,
    Stove,
    Oven,
}

/// A site: a building that houses kitchens.
#[derive(Debug, Clone, Copy, PartialEq, Eq, Structural)]
pub struct Site {
    pub id: SiteId,
    /// Where the site stands.
    pub position: Point,
    /// The tile of `position` at the resolution at which orders are routed
    /// to sites.
    pub order_tile: TileCode,
    /// The tile of `position` at the resolution at which couriers are
    /// matched with orders.
    pub courier_tile: TileCode,
}

/// A kitchen under a site, and the brands it cooks for.
#[derive(Debug)]
pub struct Kitchen {
    pub id: KitchenId,
    pub site_id: SiteId,
    pub accepted_brands: Vec<BrandId>,
}

/// A station under a kitchen.
#[derive(Debug, Clone, Copy, PartialEq, Eq, Structural)]
pub struct Station {
    pub id: StationId,
    pub kitchen_id: KitchenId,
    pub station_type: KitchenStation,
}

/// One step of a recipe.
#[derive(Debug, Clone, Copy, PartialEq, Eq, Structural)]
pub struct Instruction {
    /// The kind of station the step is done at.
    pub required_station: KitchenStation,
    /// How long the step is expected to take, in seconds.
    pub expected_duration_s: u32,
}

/// An item on the menu of a brand, with its recipe.
#[derive(Debug)]
pub struct MenuItem {
    pub id: MenuItemId,
    pub brand_id: BrandId,
    pub instructions: Vec<Instruction>,
}

impl Kitchen {
    /// Whether the kitchen cooks for `brand`.
    pub open spec fn spec_accepts(&self, brand: BrandId) -> bool {
        self.accepted_brands@.contains(brand)
    }

    /// Whether the kitchen cooks for `brand`.
    pub fn accepts(&self, brand: &BrandId) -> (b: bool)
        ensures
            b == self.spec_accepts(*brand),
    {
        let mut i: usize = 0;
        while i < self.accepted_brands.len()
            invariant
                i <= self.accepted_brands.len(),
                forall|j: int| 0 <= j < i ==> self.accepted_brands@[j] != *brand,
            decreases self.accepted_brands.len() - i,
        {
            if self.accepted_brands[i].0 == brand.0 {
                return true;
            }
            i += 1;
        }
        false
    }
}

/// Whether `i` is the first site of `sites` that stands on `tile`.
pub open spec fn is_site_for_tile(sites: Seq<Site>, tile: TileCode, i: int) -> bool {
    &&& 0 <= i < sites.len()
    &&& sites[i].order_tile == tile
    &&& forall|j: int| 0 <= j < i ==> sites[j].order_tile != tile
}

/// The first site of `sites` that stands on `tile`, if there is one.
pub open spec fn spec_site_for_tile(sites: Seq<Site>, tile: TileCode) -> Option<int> {
    if exists|i: int| is_site_for_tile(sites, tile, i) {
        Some(choose|i: int| is_site_for_tile(sites, tile, i))
    } else {
        None
    }
}

/// The first site of `sites` that stands on `tile`, if there is one.
pub fn site_for_tile(sites: &Vec<Site>, tile: TileCode) -> (r: Option<usize>)
    ensures
        r matches Some(i) ==> spec_site_for_tile(sites@, tile) == Some(i as int) && is_site_for_tile(sites@, tile, i as int),
        r is None ==> spec_site_for_tile(sites@, tile) is None
            && forall|j: int| 0 <= j < sites@.len() ==> sites@[j].order_tile != tile,
{
    let mut i: usize = 0;
    while i < sites.len()
        invariant
            i <= sites.len(),
            forall|j: int| 0 <= j < i ==> sites@[j].order_tile != tile,
        decreases sites.len() - i,
    {
        if sites[i].order_tile == tile {
            assert(is_site_for_tile(sites@, tile, i as int));
            return Some(i);
        }
        i += 1;
    }
    None
}

/// Whether no two sites share an identifier.
pub open spec fn sites_distinct(sites: Seq<Site>) -> bool {
    forall|i: int, j: int| 0 <= i < j < sites.len() ==> sites[i].id != sites[j].id
}

/// Whether no two kitchens share an identifier.
pub open spec fn kitchens_distinct(kitchens: Seq<Kitchen>) -> bool {
    forall|i: int, j: int| 0 <= i < j < kitchens.len() ==> kitchens[i].id != kitchens[j].id
}

/// Whether no two stations share an identifier.
pub open spec fn stations_distinct(stations: Seq<Station>) -> bool {
    forall|i: int, j: int| 0 <= i < j < stations.len() ==> stations[i].id != stations[j].id
}

/// Whether no two menu items share an identifier and every recipe has at
/// least one step, and fewer steps than a step counter can count.
pub open spec fn menu_sound(menu: Seq<MenuItem>) -> bool {
    &&& forall|i: int, j: int| 0 <= i < j < menu.len() ==> menu[i].id != menu[j].id
    &&& forall|i: int| 0 <= i < menu.len() ==> 1 <= #[trigger] menu[i].instructions@.len() < u64::MAX
}

/// Whether `i` is the place of the menu item `id` in `menu`.
pub open spec fn is_menu_index(menu: Seq<MenuItem>, id: MenuItemId, i: int) -> bool {
    0 <= i < menu.len() && menu[i].id == id
}

/// The place of the menu item `id` in `menu`, if it is on the menu.
pub open spec fn spec_menu_index(menu: Seq<MenuItem>, id: MenuItemId) -> Option<int> {
    if exists|i: int| is_menu_index(menu, id, i) {
        Some(choose|i: int| is_menu_index(menu, id, i))
    } else {
        None
    }
}

/// The place of the menu item `id` in `menu`, if it is on the menu.
pub fn menu_index(menu: &Vec<MenuItem>, id: &MenuItemId) -> (r: Option<usize>)
    requires
        menu_sound(menu@),
    ensures
        r matches Some(i) ==> spec_menu_index(menu@, *id) == Some(i as int) && is_menu_index(menu@, *id, i as int),
        r is None ==> spec_menu_index(menu@, *id) is None,
{
    let mut i: usize = 0;
    while i < menu.len()
        invariant
            menu_sound(menu@),
            i <= menu.len(),
            forall|j: int| 0 <= j < i ==> menu@[j].id != *id,
        decreases menu.len() - i,
    {
        if menu[i].id.0 == id.0 {
            proof {
                assert(is_menu_index(menu@, *id, i as int));
                let c = choose|k: int| is_menu_index(menu@, *id, k);
                assert(c == i) by {
                    if i < c {
                        assert(menu@[i as int].id != menu@[c].id);
                    }
                }
            }
            return Some(i);
        }
        i += 1;
    }
    None
}

/// Whether `i` is the place of the site `id` in `sites`.
pub open spec fn is_site_index(sites: Seq<Site>, id: SiteId, i: int) -> bool {
    0 <= i < sites.len() && sites[i].id == id
}

/// The place of the site `id` in `sites`, if it is there.
pub open spec fn spec_site_index(sites: Seq<Site>, id: SiteId) -> Option<int> {
    if exists|i: int| is_site_index(sites, id, i) {
        Some(choose|i: int| is_site_index(sites, id, i))
    } else {
        None
    }
}

/// The place of the site `id` in `sites`, if it is there.
pub fn site_index(sites: &Vec<Site>, id: &SiteId) -> (r: Option<usize>)
    requires
        sites_distinct(sites@),
    ensures
        r matches Some(i) ==> spec_site_index(sites@, *id) == Some(i as int) && is_site_index(sites@, *id, i as int),
        r is None ==> spec_site_index(sites@, *id) is None,
{
    let mut i: usize = 0;
    while i < sites.len()
        invariant
            sites_distinct(sites@),
            i <= sites.len(),
            forall|j: int| 0 <= j < i ==> sites@[j].id != *id,
        decreases sites.len() - i,
    {
        if sites[i].id.0 == id.0 {
            proof {
                assert(is_site_index(sites@, *id, i as int));
                let c = choose|k: int| is_site_index(sites@, *id, k);
                assert(c == i) by {
                    if i < c {
                        assert(sites@[i as int].id != sites@[c].id);
                    }
                }
            }
            return Some(i);
        }
        i += 1;
    }
    None
}

/// Whether `i` is the place of the kitchen `id` in `kitchens`.
pub open spec fn is_kitchen_index(kitchens: Seq<Kitchen>, id: KitchenId, i: int) -> bool {
    0 <= i < kitchens.len() && kitchens[i].id == id
}

} // verus!
