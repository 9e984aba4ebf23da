//! The atoms the window manager speaks.

use vstd::prelude::*;

verus! {

/// The atoms in use, by protocol. `_NET_SUPPORTED` advertises only those that are
/// really handled.
#[derive(Debug, Clone, Copy, PartialEq, Eq, Structural)]
pub struct Atoms {
    pub wm_protocols: u32,
    pub wm_delete_window: u32,
    pub wm_state: u32,
    pub wm_take_focus: u32,
    pub wm_hints: u32,
    pub net_supported: u32,
    pub net_client_list: u32,
    pub net_client_list_stacking: u32,
    pub net_number_of_desktops: u32,
    pub net_desktop_geometry: u32,
    pub net_current_desktop: u32,
    pub net_desktop_names: u32,
    pub net_active_window: u32,
    pub net_workarea: u32,
    pub net_supporting_wm_check: u32,
    pub net_wm_name: u32,
    pub net_wm_desktop: u32,
    pub net_wm_window_type: u32,
    pub net_wm_window_type_desktop: u32,
    pub net_wm_window_type_dock: u32,
    pub net_wm_window_type_toolbar: u32,
    pub net_wm_window_type_menu: u32,
    pub net_wm_window_type_utility: u32,
    pub net_wm_window_type_splash: u32,
    pub net_wm_window_type_dialog: u32,
    pub net_wm_state: u32,
    pub net_wm_state_modal: u32,
    pub net_wm_state_maximized_vert: u32,
    pub net_wm_state_maximized_horiz: u32,
    pub net_wm_state_fullscreen: u32,
    pub net_wm_state_demands_attention: u32,
    pub net_wm_strut: u32,
    pub net_wm_strut_partial: u32,
    pub net_wm_window_opacity: u32,
    pub net_close_window: u32,
    pub net_frame_extents: u32,
    pub net_wm_bypass_compositor: u32,
    /// 1 on a window that floated, so that a restart leaves it floating.
    pub maverick_float: u32,
    /// Where a floating window was.
    pub maverick_geom: u32,
    pub utf8_string: u32,
}

/// The name of every atom, in the order of the fields.
pub open spec fn names() -> Seq<Seq<char>> {
    seq![
        "WM_PROTOCOLS"@,
        "WM_DELETE_WINDOW"@,
        "WM_STATE"@,
        "WM_TAKE_FOCUS"@,
        "WM_HINTS"@,
        "_NET_SUPPORTED"@,
        "_NET_CLIENT_LIST"@,
        "_NET_CLIENT_LIST_STACKING"@,
        "_NET_NUMBER_OF_DESKTOPS"@,
        "_NET_DESKTOP_GEOMETRY"@,
        "_NET_CURRENT_DESKTOP"@,
        "_NET_DESKTOP_NAMES"@,
        "_NET_ACTIVE_WINDOW"@,
        "_NET_WORKAREA"@,
        "_NET_SUPPORTING_WM_CHECK"@,
        "_NET_WM_NAME"@,
        "_NET_WM_DESKTOP"@,
        "_NET_WM_WINDOW_TYPE"@,
        "_NET_WM_WINDOW_TYPE_DESKTOP"@,
        "_NET_WM_WINDOW_TYPE_DOCK"@,
        "_NET_WM_WINDOW_TYPE_TOOLBAR"@,
        "_NET_WM_WINDOW_TYPE_MENU"@,
        "_NET_WM_WINDOW_TYPE_UTILITY"@,
        "_NET_WM_WINDOW_TYPE_SPLASH"@,
        "_NET_WM_WINDOW_TYPE_DIALOG"@,
        "_NET_WM_STATE"@,
        "_NET_WM_STATE_MODAL"@,
        "_NET_WM_STATE_MAXIMIZED_VERT"@,
        "_NET_WM_STATE_MAXIMIZED_HORZ"@,
        "_NET_WM_STATE_FULLSCREEN"@,
        "_NET_WM_STATE_DEMANDS_ATTENTION"@,
        "_NET_WM_STRUT"@,
        "_NET_WM_STRUT_PARTIAL"@,
        "_NET_WM_WINDOW_OPACITY"@,
        "_NET_CLOSE_WINDOW"@,
        "_NET_FRAME_EXTENTS"@,
        "_NET_WM_BYPASS_COMPOSITOR"@,
        "_MAVERICK_FLOAT"@,
        "_MAVERICK_GEOM"@,
        "UTF8_STRING"@,
    ]
}

/// The names to intern, in the order in which [`Atoms::new`] takes the atoms.
pub fn atom_names() -> (v: Vec<&'static str>)
    ensures
        v@.map_values(|s: &'static str| s@) == names(),
{
    let v: Vec<&'static str> = vec![
        "WM_PROTOCOLS",
        "WM_DELETE_WINDOW",
        "WM_STATE",
        "WM_TAKE_FOCUS",
        "WM_HINTS",
        "_NET_SUPPORTED",
        "_NET_CLIENT_LIST",
        "_NET_CLIENT_LIST_STACKING",
        "_NET_NUMBER_OF_DESKTOPS",
        "_NET_DESKTOP_GEOMETRY",
        "_NET_CURRENT_DESKTOP",
        "_NET_DESKTOP_NAMES",
        "_NET_ACTIVE_WINDOW",
        "_NET_WORKAREA",
        "_NET_SUPPORTING_WM_CHECK",
        "_NET_WM_NAME",
        "_NET_WM_DESKTOP",
        "_NET_WM_WINDOW_TYPE",
        "_NET_WM_WINDOW_TYPE_DESKTOP",
        "_NET_WM_WINDOW_TYPE_DOCK",
        "_NET_WM_WINDOW_TYPE_TOOLBAR",
        "_NET_WM_WINDOW_TYPE_MENU",
        "_NET_WM_WINDOW_TYPE_UTILITY",
        "_NET_WM_WINDOW_TYPE_SPLASH",
        "_NET_WM_WINDOW_TYPE_DIALOG",
        "_NET_WM_STATE",
        "_NET_WM_STATE_MODAL",
        "_NET_WM_STATE_MAXIMIZED_VERT",
        "_NET_WM_STATE_MAXIMIZED_HORZ",
        "_NET_WM_STATE_FULLSCREEN",
        "_NET_WM_STATE_DEMANDS_ATTENTION",
        "_NET_WM_STRUT",
        "_NET_WM_STRUT_PARTIAL",
        "_NET_WM_WINDOW_OPACITY",
        "_NET_CLOSE_WINDOW",
        "_NET_FRAME_EXTENTS",
        "_NET_WM_BYPASS_COMPOSITOR",
        "_MAVERICK_FLOAT",
        "_MAVERICK_GEOM",
        "UTF8_STRING",
    ];
    assert(v@.map_values(|s: &'static str| s@) =~= names());
    v
}

impl Atoms {
    /// The atoms in the order of the fields.
    pub open spec fn ids(self) -> Seq<u32> {
        seq![
            self.wm_protocols,
            self.wm_delete_window,
            self.wm_state,
            self.wm_take_focus,
            self.wm_hints,
            self.net_supported,
            self.net_client_list,
            self.net_client_list_stacking,
            self.net_number_of_desktops,
            self.net_desktop_geometry,
            self.net_current_desktop,
            self.net_desktop_names,
            self.net_active_window,
            self.net_workarea,
            self.net_supporting_wm_check,
            self.net_wm_name,
            self.net_wm_desktop,
            self.net_wm_window_type,
            self.net_wm_window_type_desktop,
            self.net_wm_window_type_dock,
            self.net_wm_window_type_toolbar,
            self.net_wm_window_type_menu,
            self.net_wm_window_type_utility,
            self.net_wm_window_type_splash,
            self.net_wm_window_type_dialog,
            self.net_wm_state,
            self.net_wm_state_modal,
            self.net_wm_state_maximized_vert,
            self.net_wm_state_maximized_horiz,
            self.net_wm_state_fullscreen,
            self.net_wm_state_demands_attention,
            self.net_wm_strut,
            self.net_wm_strut_partial,
            self.net_wm_window_opacity,
            self.net_close_window,
            self.net_frame_extents,
            self.net_wm_bypass_compositor,
            self.maverick_float,
            self.maverick_geom,
            self.utf8_string,
        ]
    }

    /// The atoms, given what the server answered for each name; none where an
    /// answer is missing.
    pub fn new(ids: &[u32]) -> (r: Option<Atoms>)
        ensures
            match r {
                Some(a) => a.ids() == ids@,
                None => ids@.len() != 40,
            },
    {
        if ids.len() != 40 {
            return None;
        }
        let a: Atoms = Atoms {
            wm_protocols: ids[0],
            wm_delete_window: ids[1],
            wm_state: ids[2],
            wm_take_focus: ids[3],
            wm_hints: ids[4],
            net_supported: ids[5],
            net_client_list: ids[6],
            net_client_list_stacking: ids[7],
            net_number_of_desktops: ids[8],
            net_desktop_geometry: ids[9],
            net_current_desktop: ids[10],
            net_desktop_names: ids[11],
            net_active_window: ids[12],
            net_workarea: ids[13],
            net_supporting_wm_check: ids[14],
            net_wm_name: ids[15],
            net_wm_desktop: ids[16],
            net_wm_window_type: ids[17],
            net_wm_window_type_desktop: ids[18],
            net_wm_window_type_dock: ids[19],
            net_wm_window_type_toolbar: ids[20],
            net_wm_window_type_menu: ids[21],
            net_wm_window_type_utility: ids[22],
            net_wm_window_type_splash: ids[23],
            net_wm_window_type_dialog: ids[24],
            net_wm_state: ids[25],
            net_wm_state_modal: ids[26],
            net_wm_state_maximized_vert: ids[27],
            net_wm_state_maximized_horiz: ids[28],
            net_wm_state_fullscreen: ids[29],
            net_wm_state_demands_attention: ids[30],
            net_wm_strut: ids[31],
            net_wm_strut_partial: ids[32],
            net_wm_window_opacity: ids[33],
            net_close_window: ids[34],
            net_frame_extents: ids[35],
            net_wm_bypass_compositor: ids[36],
            maverick_float: ids[37],
            maverick_geom: ids[38],
            utf8_string: ids[39],
        };
        assert(a.ids() =~= ids@);
        Some(a)
    }

    /// What `_NET_SUPPORTED` advertises.
    pub open spec fn supported(self) -> Seq<u32> {
        seq![
            self.net_supported,
            self.net_client_list,
            self.net_client_list_stacking,
            self.net_number_of_desktops,
            self.net_desktop_geometry,
            self.net_current_desktop,
            self.net_desktop_names,
            self.net_active_window,
            self.net_workarea,
            self.net_supporting_wm_check,
            self.net_wm_name,
            self.net_wm_desktop,
            self.net_wm_window_type,
            self.net_wm_window_type_desktop,
            self.net_wm_window_type_dock,
            self.net_wm_window_type_toolbar,
            self.net_wm_window_type_menu,
            self.net_wm_window_type_utility,
            self.net_wm_window_type_splash,
            self.net_wm_window_type_dialog,
            self.net_wm_state,
            self.net_wm_state_modal,
            self.net_wm_state_maximized_vert,
            self.net_wm_state_maximized_horiz,
            self.net_wm_state_fullscreen,
            self.net_wm_state_demands_attention,
            self.net_wm_strut,
            self.net_wm_strut_partial,
            self.net_wm_window_opacity,
            self.net_close_window,
            self.net_frame_extents,
            self.net_wm_bypass_compositor,
        ]
    }

    /// All atoms that `_NET_SUPPORTED` advertises.
    pub fn supported_list(&self) -> (v: Vec<u32>)
        ensures
            v@ == self.supported(),
    {
        let v: Vec<u32> = vec![
            self.net_supported,
            self.net_client_list,
            self.net_client_list_stacking,
            self.net_number_of_desktops,
            self.net_desktop_geometry,
            self.net_current_desktop,
            self.net_desktop_names,
            self.net_active_window,
            self.net_workarea,
            self.net_supporting_wm_check,
            self.net_wm_name,
            self.net_wm_desktop,
            self.net_wm_window_type,
            self.net_wm_window_type_desktop,
            self.net_wm_window_type_dock,
            self.net_wm_window_type_toolbar,
            self.net_wm_window_type_menu,
            self.net_wm_window_type_utility,
            self.net_wm_window_type_splash,
            self.net_wm_window_type_dialog,
            self.net_wm_state,
            self.net_wm_state_modal,
            self.net_wm_state_maximized_vert,
            self.net_wm_state_maximized_horiz,
            self.net_wm_state_fullscreen,
            self.net_wm_state_demands_attention,
            self.net_wm_strut,
            self.net_wm_strut_partial,
            self.net_wm_window_opacity,
            self.net_close_window,
            self.net_frame_extents,
            self.net_wm_bypass_compositor,
        ];
        assert(v@ =~= self.supported());
        v
    }
}

/// Every advertised atom is one of those interned, and the private ones are not
/// advertised.
pub proof fn supported_atoms_are_known(a: Atoms, i: int)
    requires
        0 <= i < a.supported().len(),
    ensures
        a.supported()[i] == a.ids()[i + 5],
{
}

/// Every atom is the one of its own name: names and numbers stand in the same order.
pub proof fn atoms_have_their_own_names(a: Atoms)
    ensures
        names().len() == 40 && a.ids().len() == 40,
        names()[0] == "WM_PROTOCOLS"@ && a.ids()[0] == a.wm_protocols,
        names()[1] == "WM_DELETE_WINDOW"@ && a.ids()[1] == a.wm_delete_window,
        names()[2] == "WM_STATE"@ && a.ids()[2] == a.wm_state,
        names()[3] == "WM_TAKE_FOCUS"@ && a.ids()[3] == a.wm_take_focus,
        names()[4] == "WM_HINTS"@ && a.ids()[4] == a.wm_hints,
        names()[5] == "_NET_SUPPORTED"@ && a.ids()[5] == a.net_supported,
        names()[6] == "_NET_CLIENT_LIST"@ && a.ids()[6] == a.net_client_list,
        names()[7] == "_NET_CLIENT_LIST_STACKING"@ && a.ids()[7] == a.net_client_list_stacking,
        names()[8] == "_NET_NUMBER_OF_DESKTOPS"@ && a.ids()[8] == a.net_number_of_desktops,
        names()[9] == "_NET_DESKTOP_GEOMETRY"@ && a.ids()[9] == a.net_desktop_geometry,
        names()[10] == "_NET_CURRENT_DESKTOP"@ && a.ids()[10] == a.net_current_desktop,
        names()[11] == "_NET_DESKTOP_NAMES"@ && a.ids()[11] == a.net_desktop_names,
        names()[12] == "_NET_ACTIVE_WINDOW"@ && a.ids()[12] == a.net_active_window,
        names()[13] == "_NET_WORKAREA"@ && a.ids()[13] == a.net_workarea,
        names()[14] == "_NET_SUPPORTING_WM_CHECK"@ && a.ids()[14] == a.net_supporting_wm_check,
        names()[15] == "_NET_WM_NAME"@ && a.ids()[15] == a.net_wm_name,
        names()[16] == "_NET_WM_DESKTOP"@ && a.ids()[16] == a.net_wm_desktop,
        names()[17] == "_NET_WM_WINDOW_TYPE"@ && a.ids()[17] == a.net_wm_window_type,
        names()[18] == "_NET_WM_WINDOW_TYPE_DESKTOP"@ && a.ids()[18] == a.net_wm_window_type_desktop,
        names()[19] == "_NET_WM_WINDOW_TYPE_DOCK"@ && a.ids()[19] == a.net_wm_window_type_dock,
        names()[20] == "_NET_WM_WINDOW_TYPE_TOOLBAR"@ && a.ids()[20] == a.net_wm_window_type_toolbar,
        names()[21] == "_NET_WM_WINDOW_TYPE_MENU"@ && a.ids()[21] == a.net_wm_window_type_menu,
        names()[22] == "_NET_WM_WINDOW_TYPE_UTILITY"@ && a.ids()[22] == a.net_wm_window_type_utility,
        names()[23] == "_NET_WM_WINDOW_TYPE_SPLASH"@ && a.ids()[23] == a.net_wm_window_type_splash,
        names()[24] == "_NET_WM_WINDOW_TYPE_DIALOG"@ && a.ids()[24] == a.net_wm_window_type_dialog,
        names()[25] == "_NET_WM_STATE"@ && a.ids()[25] == a.net_wm_state,
        names()[26] == "_NET_WM_STATE_MODAL"@ && a.ids()[26] == a.net_wm_state_modal,
        names()[27] == "_NET_WM_STATE_MAXIMIZED_VERT"@ && a.ids()[27] == a.net_wm_state_maximized_vert,
        names()[28] == "_NET_WM_STATE_MAXIMIZED_HORZ"@ && a.ids()[28] == a.net_wm_state_maximized_horiz,
        names()[29] == "_NET_WM_STATE_FULLSCREEN"@ && a.ids()[29] == a.net_wm_state_fullscreen,
        names()[30] == "_NET_WM_STATE_DEMANDS_ATTENTION"@ && a.ids()[30] == a.net_wm_state_demands_attention,
        names()[31] == "_NET_WM_STRUT"@ && a.ids()[31] == a.net_wm_strut,
        names()[32] == "_NET_WM_STRUT_PARTIAL"@ && a.ids()[32] == a.net_wm_strut_partial,
        names()[33] == "_NET_WM_WINDOW_OPACITY"@ && a.ids()[33] == a.net_wm_window_opacity,
        names()[34] == "_NET_CLOSE_WINDOW"@ && a.ids()[34] == a.net_close_window,
        names()[35] == "_NET_FRAME_EXTENTS"@ && a.ids()[35] == a.net_frame_extents,
        names()[36] == "_NET_WM_BYPASS_COMPOSITOR"@ && a.ids()[36] == a.net_wm_bypass_compositor,
        names()[37] == "_MAVERICK_FLOAT"@ && a.ids()[37] == a.maverick_float,
        names()[38] == "_MAVERICK_GEOM"@ && a.ids()[38] == a.maverick_geom,
        names()[39] == "UTF8_STRING"@ && a.ids()[39] == a.utf8_string,
{
}

} // verus!
