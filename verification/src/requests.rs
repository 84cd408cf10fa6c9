//! Which input raises which request, and which control moves which setting.

use crate::looks::{Levels, NoiseMod};
use crate::panels::{
    brush_requested, brush_tuned, edit_chosen, effect_edited, file_chosen, header_clicked,
    is_trimmed, look_clicked, menu_chosen, mesh_chosen, mesh_tuned, route_clicked, uv_events,
    uv_last, view_chosen, white, BrushInput, EditItem, EffectInput, FileItem, ImageControls,
    LayerInput, MenuItem, MeshInput, MeshItem, UvInput, ViewItem, SIZES,
};
use crate::ui::{
    BrushActions, CanvasPanel, EditActions, EffectActions, FileActions, LayerActions, LayerPanel,
    MeshActions, MeshPanel, PaintPanel, Tool, Tune, UiActions, UiState, UnwrapActions, UvEvent,
    ViewPanel,
};
use vstd::prelude::*;

verus! {

/// Every item of the File menu raises its own request and no other; what was requested stays.
pub proof fn law_each_file_item_has_its_request(a: FileActions, item: FileItem)
    ensures
        ({
            let b = file_chosen(a, item);
            &&& b.open_model == (a.open_model || item == FileItem::OpenModel)
            &&& b.open_texture == (a.open_texture || item == FileItem::OpenImage)
            &&& b.save_png == (a.save_png || item == FileItem::SavePng)
            &&& b.export_obj == (a.export_obj || item == FileItem::ExportMesh)
            &&& b.quicksave == (a.quicksave || item == FileItem::SaveProject)
            &&& b.save_project == (a.save_project || item == FileItem::SaveProjectAs)
            &&& b.open_project == (a.open_project || item == FileItem::OpenProject)
            &&& item == FileItem::ExportIndexed ==> b.export_png == Some(true)
            &&& item == FileItem::ExportRgba ==> b.export_png == Some(false)
            &&& item != FileItem::ExportIndexed && item != FileItem::ExportRgba ==> b.export_png
                == a.export_png
        }),
{
}

/// Undo is requested by its item while there is something to undo, redo likewise, and the
/// seam repair by its own; no item asks for a checkpoint.
pub proof fn law_each_edit_item_has_its_request(
    a: EditActions,
    can_undo: bool,
    can_redo: bool,
    item: EditItem,
)
    ensures
        ({
            let b = edit_chosen(a, can_undo, can_redo, item);
            &&& b.undo == (a.undo || (item == EditItem::Undo && can_undo))
            &&& b.redo == (a.redo || (item == EditItem::Redo && can_redo))
            &&& b.clean_seams == (a.clean_seams || item == EditItem::CleanSeams)
            &&& b.checkpoint == a.checkpoint
        }),
{
}

/// The items of the Mesh menu: settings change what they name, and the two unwraps are
/// requested with the settings as they are.
pub proof fn law_each_mesh_item_has_its_effect<F>(
    c: CanvasPanel<F>,
    a: UnwrapActions<F>,
    item: MeshItem<F>,
)
    ensures
        ({
            let (d, b) = mesh_chosen(c, a, item);
            &&& d.unwrap_density == if item is Density {
                item->Density_0
            } else {
                c.unwrap_density
            }
            &&& d.unwrap_overlap == if item is Overlap {
                item->Overlap_0
            } else {
                c.unwrap_overlap
            }
            &&& d.unwrap_texels_per_m == if item is TexelsPerM {
                item->TexelsPerM_0
            } else {
                c.unwrap_texels_per_m
            }
            &&& d.resolution == c.resolution && d.export_preset == c.export_preset
            &&& d.last_density_d == c.last_density_d
            &&& d.last_atlas_clamped == c.last_atlas_clamped
            &&& b.unwrap == if item is UnwrapPreset {
                Some(c.unwrap_density)
            } else {
                a.unwrap
            }
            &&& b.unwrap_at_density == if item is UnwrapAtDensity {
                Some(c.unwrap_texels_per_m)
            } else {
                a.unwrap_at_density
            }
            &&& b.set_resolution == a.set_resolution
        }),
{
}

/// The view controls change what they name and nothing else.
pub proof fn law_each_view_item_has_its_setting<F>(v: ViewPanel<F>, item: ViewItem<F>)
    ensures
        ({
            let w = view_chosen(v, item);
            &&& w.bg_color == if item is Background {
                item->Background_0
            } else {
                v.bg_color
            }
            &&& w.show_grid == if item is Grid {
                item->Grid_0
            } else {
                v.show_grid
            }
            &&& w.texture_filter == if item is Filter {
                item->Filter_0
            } else {
                v.texture_filter
            }
            &&& w.panel_width == v.panel_width
        }),
{
}

/// A choice in the menu bar reaches the part of the panel that it names and no other.
pub proof fn law_menus_reach_their_part<F, P>(s: UiState<F, P>, item: MenuItem<F>)
    ensures
        item matches MenuItem::File(i) ==> menu_chosen(s, item).actions.file == file_chosen(
            s.actions.file,
            i,
        ),
        item matches MenuItem::Edit(i) ==> menu_chosen(s, item).actions.edit == edit_chosen(
            s.actions.edit,
            s.layer.can_undo,
            s.layer.can_redo,
            i,
        ),
        item matches MenuItem::Mesh(i) ==> (
            menu_chosen(s, item).canvas,
            menu_chosen(s, item).actions.unwrap,
        ) == mesh_chosen(s.canvas, s.actions.unwrap, i),
        item matches MenuItem::View(i) ==> menu_chosen(s, item).view == view_chosen(s.view, i),
        !(item is File) ==> menu_chosen(s, item).actions.file == s.actions.file,
        !(item is Edit) ==> menu_chosen(s, item).actions.edit == s.actions.edit,
        !(item is Mesh) ==> menu_chosen(s, item).actions.unwrap == s.actions.unwrap && menu_chosen(
            s,
            item,
        ).canvas == s.canvas,
        !(item is View) ==> menu_chosen(s, item).view == s.view,
        menu_chosen(s, item).actions.layer == s.actions.layer,
        menu_chosen(s, item).actions.effect == s.actions.effect,
        menu_chosen(s, item).actions.mesh == s.actions.mesh,
        menu_chosen(s, item).actions.brush == s.actions.brush,
        menu_chosen(s, item).layer == s.layer,
        menu_chosen(s, item).paint == s.paint,
{
}

/// The buttons over the layer list, from the first: add, remove, up, down, merge.
pub proof fn law_each_layer_button_has_its_request<F>(a: LayerActions<F>, clicked: Option<usize>)
    ensures
        ({
            let b = header_clicked(a, clicked);
            &&& b.add_layer == (a.add_layer || clicked == Some(0usize))
            &&& b.remove_layer == (a.remove_layer || clicked == Some(1usize))
            &&& b.move_layer_up == (a.move_layer_up || clicked == Some(2usize))
            &&& b.move_layer_down == (a.move_layer_down || clicked == Some(3usize))
            &&& b.merge_layer_down == (a.merge_layer_down || clicked == Some(4usize))
            &&& b.select_layer == a.select_layer && b.set_layer_visible == a.set_layer_visible
            &&& b.set_layer_opacity == a.set_layer_opacity
            &&& b.set_layer_blend == a.set_layer_blend && b.set_layer_name == a.set_layer_name
        }),
{
}

/// The buttons of an effect, from the first: up, down, remove; and a moved slider asks for
/// the effect as it now is. Each is asked for by the effect's place.
pub proof fn law_each_effect_button_has_its_request<F>(a: EffectActions<F>, input: EffectInput<F>)
    ensures
        ({
            let b = effect_edited(a, input);
            &&& b.move_effect_up == if input.button == Some(0usize) {
                Some(input.index)
            } else {
                a.move_effect_up
            }
            &&& b.move_effect_down == if input.button == Some(1usize) {
                Some(input.index)
            } else {
                a.move_effect_down
            }
            &&& b.remove_effect == if input.button == Some(2usize) {
                Some(input.index)
            } else {
                a.remove_effect
            }
            &&& input.changed is Some ==> b.set_effect == Some((input.index, input.changed->0))
            &&& input.changed is None ==> b.set_effect == a.set_effect
            &&& b.add_effect == a.add_effect
        }),
{
}

/// The look buttons: darken and highlights, dirt and edge wear, sunlight and top-down; each
/// asks for its own look with the levels and noise given.
pub proof fn law_each_look_button_has_its_look<F>(
    a: MeshActions<F>,
    input: MeshInput<F>,
    l: Levels<F>,
    n: Option<NoiseMod<F>>,
)
    ensures
        ({
            let b = look_clicked(a, input, l, n);
            &&& input.shade == Some(0usize) ==> b.apply_ao == Some((l, n))
            &&& input.shade != Some(0usize) ==> b.apply_ao == a.apply_ao
            &&& input.shade == Some(1usize) ==> b.apply_highlight == Some((l, n))
            &&& input.shade != Some(1usize) ==> b.apply_highlight == a.apply_highlight
            &&& input.wear == Some(0usize) ==> b.apply_dirt == Some((l, n))
            &&& input.wear != Some(0usize) ==> b.apply_dirt == a.apply_dirt
            &&& input.wear == Some(1usize) ==> b.apply_edge_wear == Some((l, n))
            &&& input.wear != Some(1usize) ==> b.apply_edge_wear == a.apply_edge_wear
            &&& input.light == Some(0usize) ==> b.apply_sun == Some((l, n))
            &&& input.light != Some(0usize) ==> b.apply_sun == a.apply_sun
            &&& input.light == Some(1usize) ==> b.apply_top_dust == Some((l, n))
            &&& input.light != Some(1usize) ==> b.apply_top_dust == a.apply_top_dust
            &&& b.apply_tint == a.apply_tint && b.mask_from_map == a.mask_from_map
            &&& b.apply_gradient == a.apply_gradient
        }),
{
}

/// The custom routes: a tint in the brush colour, a mask, and a gradient between its two
/// colours, each from the channel and with the levels that the controls show.
pub proof fn law_each_route_has_its_request<F>(
    a: MeshActions<F>,
    m: MeshPanel<F>,
    input: MeshInput<F>,
    color: [F; 3],
    n: Option<NoiseMod<F>>,
)
    ensures
        ({
            let b = route_clicked(a, m, input, color, n);
            let l = Levels {
                invert: m.tune.effect_invert,
                contrast: m.tune.effect_contrast,
                strength: m.tune.ao_strength,
            };
            &&& input.route == Some(0usize) ==> b.apply_tint == Some(
                (m.effect_source, l, color, n),
            )
            &&& input.route != Some(0usize) ==> b.apply_tint == a.apply_tint
            &&& input.route == Some(1usize) ==> b.mask_from_map == Some((m.effect_source, l, n))
            &&& input.route != Some(1usize) ==> b.mask_from_map == a.mask_from_map
            &&& input.gradient ==> b.apply_gradient == Some(
                (m.effect_source, l, m.grad_low, m.grad_high, n),
            )
            &&& !input.gradient ==> b.apply_gradient == a.apply_gradient
            &&& b.apply_ao == a.apply_ao && b.apply_highlight == a.apply_highlight
            &&& b.apply_dirt == a.apply_dirt && b.apply_edge_wear == a.apply_edge_wear
            &&& b.apply_sun == a.apply_sun && b.apply_top_dust == a.apply_top_dust
        }),
{
}

/// The controls of the mesh effects: each moved one sets what it names, the top-down look
/// aims the sun at the zenith unless its height was moved too, and everything else stays.
pub proof fn law_mesh_controls_move_their_setting<F>(
    m: MeshPanel<F>,
    input: MeshInput<F>,
    zenith: F,
)
    ensures
        ({
            let p = mesh_tuned(m, input, zenith);
            &&& p.tune == input.tune
            &&& input.source is Some ==> p.effect_source == input.source->0
            &&& input.source is None ==> p.effect_source == m.effect_source
            &&& input.sun_elevation is Some ==> p.sun_elevation == input.sun_elevation->0
            &&& input.sun_elevation is None && input.light == Some(1usize) ==> p.sun_elevation
                == zenith
            &&& input.sun_elevation is None && input.light != Some(1usize) ==> p.sun_elevation
                == m.sun_elevation
            &&& input.sun_azimuth is Some ==> p.sun_azimuth == input.sun_azimuth->0
            &&& input.sun_azimuth is None ==> p.sun_azimuth == m.sun_azimuth
            &&& input.sun_shadow is Some ==> p.sun_shadow == input.sun_shadow->0
            &&& input.sun_shadow is None ==> p.sun_shadow == m.sun_shadow
            &&& input.grad_low is Some ==> p.grad_low == input.grad_low->0
            &&& input.grad_low is None ==> p.grad_low == m.grad_low
            &&& input.grad_high is Some ==> p.grad_high == input.grad_high->0
            &&& input.grad_high is None ==> p.grad_high == m.grad_high
        }),
{
}

/// Levels and noise are those of the controls; without a positive amount there is no noise.
pub proof fn law_the_tune_is_what_the_controls_show<F>(t: Tune<F>, positive: spec_fn(F) -> bool)
    ensures
        t.levels_spec().invert == t.effect_invert,
        t.levels_spec().contrast == t.effect_contrast,
        t.levels_spec().strength == t.ao_strength,
        t.noise_spec(positive) is Some <==> positive(t.noise_amount),
        t.noise_spec(positive) matches Some(n) ==> n.kind == t.noise_kind && n.scale
            == t.noise_scale && n.contrast == t.noise_contrast && n.amount == t.noise_amount,
{
}

/// The controls of brush images and tips: those of an image work once one is loaded, those
/// of a stamp while it stamps, those of a tip once one is loaded; the rest stays.
pub proof fn law_brush_controls_move_their_setting<F>(p: PaintPanel<F>, input: BrushInput<F>)
    ensures
        ({
            let q = brush_tuned(p, input);
            &&& p.brush_image_loaded && input.stamp is Some ==> q.brush_stamp == input.stamp->0
            &&& !p.brush_image_loaded || input.stamp is None ==> q.brush_stamp == p.brush_stamp
            &&& p.brush_image_loaded && input.tile is Some ==> q.brush_tile == input.tile->0
            &&& !p.brush_image_loaded || input.tile is None ==> q.brush_tile == p.brush_tile
            &&& p.brush_image_loaded && q.brush_stamp && input.tint is Some ==> q.stamp_tint
                == input.tint->0
            &&& !(p.brush_image_loaded && q.brush_stamp) || input.tint is None ==> q.stamp_tint
                == p.stamp_tint
            &&& p.alpha_loaded && input.invert is Some ==> q.alpha_invert == input.invert->0
            &&& !p.alpha_loaded || input.invert is None ==> q.alpha_invert == p.alpha_invert
            &&& p.alpha_loaded && input.tip_angle is Some ==> q.stamp_angle_deg
                == input.tip_angle->0
            &&& !(p.alpha_loaded && input.tip_angle is Some) && p.brush_image_loaded
                && q.brush_stamp && input.angle is Some ==> q.stamp_angle_deg == input.angle->0
            &&& !(p.alpha_loaded && input.tip_angle is Some) && !(p.brush_image_loaded
                && q.brush_stamp && input.angle is Some) ==> q.stamp_angle_deg
                == p.stamp_angle_deg
            &&& q.material_tile == p.material_tile
            &&& q.brush_image_loaded == p.brush_image_loaded && q.alpha_loaded == p.alpha_loaded
            &&& q.symmetry_on == p.symmetry_on && q.symmetry_axis == p.symmetry_axis
            &&& q.lock_face == p.lock_face
            &&& q.brush_thumb == p.brush_thumb && q.alpha_thumb == p.alpha_thumb
        }),
{
}

/// The requests about brush images and tips: what is loaded can be cleared, and everything
/// else can be asked for at any time.
pub proof fn law_each_brush_button_has_its_request<F>(
    a: BrushActions<F>,
    p: PaintPanel<F>,
    input: BrushInput<F>,
)
    ensures
        ({
            let b = brush_requested(a, p, input);
            &&& b.load_brush_image == (a.load_brush_image || input.load_image)
            &&& b.clear_brush_image == (a.clear_brush_image || (p.brush_image_loaded
                && input.clear_image))
            &&& b.open_brush_folder == (a.open_brush_folder || input.open_folder)
            &&& b.open_alpha_folder == (a.open_alpha_folder || input.open_tips)
            &&& b.clear_alpha == (a.clear_alpha || (p.alpha_loaded && input.clear_tip))
            &&& input.entry is Some ==> b.use_brush_entry == input.entry
            &&& input.entry is None ==> b.use_brush_entry == a.use_brush_entry
            &&& input.tip_entry is Some ==> b.use_alpha_entry == input.tip_entry
            &&& input.tip_entry is None ==> b.use_alpha_entry == a.use_alpha_entry
            &&& b.fill_material == a.fill_material
        }),
{
}

/// Which controls are shown: those of the brush while it is the tool, the axis under
/// symmetry, the grid while snapping, those of a tip once one is loaded, undo and redo while
/// there are steps, the layer's options while one is active, reveal and hide while its mask
/// is painted, dithering while quantizing, the UV editor while it is open, and of an image
/// those for the way it is used.
pub proof fn law_controls_are_shown_where_they_apply<F, P>(s: UiState<F, P>)
    ensures
        ({
            let c = s.controls_spec();
            &&& c.brush <==> s.tool == Tool::Brush
            &&& c.axis <==> s.tool == Tool::Brush && s.paint.symmetry_on
            &&& c.snap_grid <==> s.tool == Tool::Brush && s.brush.snap_to_texel
            &&& c.tip <==> s.tool == Tool::Brush && s.paint.alpha_loaded
            &&& c.undo <==> s.layer.can_undo
            &&& c.redo <==> s.layer.can_redo
            &&& c.layer <==> s.layer.active_layer < s.layer.layers@.len()
            &&& c.mask <==> s.layer.active_layer < s.layer.layers@.len() && s.layer.paint_mask
            &&& c.dither <==> s.palette.settings.enabled
            &&& c.uv_editor <==> s.uv.show_uv_panel
            &&& c.image == ImageControls::Load <==> !s.paint.brush_image_loaded
            &&& c.image == ImageControls::Stamp <==> s.paint.brush_image_loaded
                && s.paint.brush_stamp
            &&& c.image == ImageControls::Tile <==> s.paint.brush_image_loaded
                && !s.paint.brush_stamp
        }),
{
}

/// A drag in the UV editor draws segments that join: each starts where the one before it
/// ended, the first where the drag began, and ends at the pointer. A click draws one point,
/// at the pointer or else where it hovers. A frame in which nothing happens adds nothing.
pub proof fn law_uv_segments_join<P>(last: Option<P>, input: UvInput<P>, zero: P)
    ensures
        input.drag_started && !input.dragged && !input.drag_stopped && !input.clicked ==> uv_events(
            last,
            input,
            zero,
        ) == seq![UvEvent::<P>::Begin] && uv_last(last, input, zero) == Some(
            if input.pointer is Some {
                input.pointer->0
            } else {
                zero
            },
        ),
        !input.drag_started && input.dragged && input.pointer is Some && last is Some
            && !input.drag_stopped && !input.clicked ==> uv_events(last, input, zero) == seq![
            UvEvent::Segment { from: last->0, to: input.pointer->0 },
        ] && uv_last(last, input, zero) == input.pointer,
        !input.drag_started && !input.dragged && input.drag_stopped && !input.clicked ==> uv_events(
            last,
            input,
            zero,
        ) == seq![UvEvent::<P>::End] && uv_last(last, input, zero) is None,
        !input.drag_started && !input.dragged && !input.drag_stopped && input.clicked
            && input.pointer is Some ==> uv_events(last, input, zero) == seq![
            UvEvent::Begin,
            UvEvent::Segment { from: input.pointer->0, to: input.pointer->0 },
            UvEvent::End,
        ],
        !input.drag_started && !input.dragged && !input.drag_stopped && input.clicked
            && input.pointer is None && input.hover is Some ==> uv_events(last, input, zero)
            == seq![
            UvEvent::Begin,
            UvEvent::Segment { from: input.hover->0, to: input.hover->0 },
            UvEvent::End,
        ],
        !input.drag_started && !input.dragged && !input.drag_stopped && !input.clicked ==> uv_events(
            last,
            input,
            zero,
        ).len() == 0 && uv_last(last, input, zero) == last,
{
    let e = uv_events(last, input, zero);
    if input.drag_started && !input.dragged && !input.drag_stopped && !input.clicked {
        assert(e =~= seq![UvEvent::<P>::Begin]);
    }
    if !input.drag_started && !input.dragged && input.drag_stopped && !input.clicked {
        assert(e =~= seq![UvEvent::<P>::End]);
    }
    if !input.drag_started && input.dragged && input.pointer is Some && last is Some
        && !input.drag_stopped && !input.clicked {
        assert(e =~= seq![UvEvent::Segment { from: last->0, to: input.pointer->0 }]);
    }
    if !input.drag_started && !input.dragged && !input.drag_stopped && input.clicked
        && input.pointer is Some {
        assert(e =~= seq![
            UvEvent::Begin,
            UvEvent::Segment { from: input.pointer->0, to: input.pointer->0 },
            UvEvent::End,
        ]);
    }
    if !input.drag_started && !input.dragged && !input.drag_stopped && input.clicked
        && input.pointer is None && input.hover is Some {
        assert(e =~= seq![
            UvEvent::Begin,
            UvEvent::Segment { from: input.hover->0, to: input.hover->0 },
            UvEvent::End,
        ]);
    }
}

/// A name is committed when its field is left, trimmed, where something is left of it and it
/// is not the current one; the blend mode and the opacity are asked for as they were chosen.
pub proof fn law_layer_options_ask_for_what_was_chosen<F>(
    a: LayerActions<F>,
    b: LayerActions<F>,
    i: usize,
    name: Seq<char>,
    input: LayerInput<F>,
)
    requires
        b.edited(&a, i, name, input),
    ensures
        !input.lost_focus ==> b.set_layer_name == a.set_layer_name,
        b.set_layer_name != a.set_layer_name ==> b.set_layer_name is Some && (
        b.set_layer_name->0).0 == i && (b.set_layer_name->0).1@.len() > 0 && (
        b.set_layer_name->0).1@ != name,
        input.blend is Some ==> b.set_layer_blend == Some((i, input.blend->0)),
        input.blend is None ==> b.set_layer_blend == a.set_layer_blend,
        input.opacity is Some ==> b.set_layer_opacity == Some((i, input.opacity->0)),
        input.opacity is None ==> b.set_layer_opacity == a.set_layer_opacity,
        b.add_layer == a.add_layer && b.remove_layer == a.remove_layer,
        b.select_layer == a.select_layer && b.set_layer_visible == a.set_layer_visible,
{
}

/// The options of the active layer: while the field has the focus it shows what is typed, and
/// else the layer's name; the mask is painted as chosen, and reveal or hide can be chosen
/// while it is.
pub proof fn law_layer_options_show_what_was_chosen<F>(
    a: LayerPanel<F>,
    b: LayerPanel<F>,
    input: LayerInput<F>,
)
    requires
        b.edited(&a, input),
    ensures
        input.has_focus ==> b.layer_name_edit@ == input.typed@,
        !input.has_focus ==> b.layer_name_edit@ == a.layers@[a.active_layer as int].name@,
        b.paint_mask == input.paint_mask,
        input.paint_mask && input.mask_reveal is Some ==> b.mask_reveal == input.mask_reveal->0,
        !input.paint_mask || input.mask_reveal is None ==> b.mask_reveal == a.mask_reveal,
        b.layers == a.layers && b.active_layer == a.active_layer,
        b.can_undo == a.can_undo && b.can_redo == a.can_redo,
        a.has_active() <==> a.active_layer < a.layers@.len(),
{
}

/// Trimming cuts white space from both ends and nothing else: a text without any at its ends
/// stays, and a text of white space alone becomes empty.
pub proof fn law_trimming_cuts_the_ends(s: Seq<char>, t: Seq<char>)
    requires
        is_trimmed(s, t),
    ensures
        t.len() <= s.len(),
        t.len() > 0 ==> !white(t[0]) && !white(t.last()),
        s.len() > 0 && !white(s[0]) && !white(s.last()) ==> t == s,
        (forall|k: int| 0 <= k < s.len() ==> white(#[trigger] s[k])) ==> t.len() == 0,
{
    let (i, j) = choose|i: int, j: int|
        0 <= i <= j <= s.len() && t == #[trigger] s.subrange(i, j) && (forall|k: int|
            0 <= k < i ==> white(#[trigger] s[k])) && (forall|k: int|
            j <= k < s.len() ==> white(#[trigger] s[k])) && (i < j ==> !white(s[i]) && !white(
            s[j - 1],
        ));
    if s.len() > 0 && !white(s[0]) && !white(s.last()) {
        assert(i == 0);
        assert(j == s.len()) by {
            if j < s.len() {
                assert(white(s[s.len() - 1]));
            }
        }
        assert(t =~= s);
    }
}

/// The resolutions offered, from the smallest.
pub proof fn law_the_resolutions_offered()
    ensures
        SIZES@ == seq![32u32, 64u32, 128u32, 256u32, 512u32, 1024u32, 2048u32, 3072u32, 4096u32],
{
    assert(SIZES@ =~= seq![
        32u32,
        64u32,
        128u32,
        256u32,
        512u32,
        1024u32,
        2048u32,
        3072u32,
        4096u32,
    ]);
}

/// Where nothing is requested, every single request is off.
pub proof fn law_idle_means_no_request<F, P>(a: UiActions<F, P>)
    requires
        a.idle(),
    ensures
        !a.file.save_png && !a.file.open_texture && !a.file.open_model && !a.file.save_project,
        !a.file.quicksave && !a.file.open_project && a.file.export_png is None,
        !a.file.export_obj,
        !a.edit.undo && !a.edit.redo && !a.edit.checkpoint && !a.edit.clean_seams,
        a.palette.select_builtin_palette is None && a.palette.generate_palette is None,
        !a.layer.add_layer && !a.layer.remove_layer && !a.layer.move_layer_up,
        !a.layer.move_layer_down && !a.layer.merge_layer_down && a.layer.select_layer is None,
        a.layer.set_layer_visible is None && a.layer.set_layer_opacity is None,
        a.layer.set_layer_blend is None && a.layer.set_layer_name is None,
        a.effect.add_effect is None && a.effect.remove_effect is None,
        a.effect.move_effect_up is None && a.effect.move_effect_down is None,
        a.effect.set_effect is None,
        a.mesh.apply_ao is None && a.mesh.apply_highlight is None && a.mesh.apply_dirt is None,
        a.mesh.apply_edge_wear is None && a.mesh.apply_sun is None,
        a.mesh.apply_top_dust is None && a.mesh.apply_tint is None,
        a.mesh.mask_from_map is None && a.mesh.apply_gradient is None,
        a.brush.fill_material is None && !a.brush.load_brush_image && !a.brush.clear_brush_image,
        !a.brush.open_brush_folder && a.brush.use_brush_entry is None,
        !a.brush.open_alpha_folder && a.brush.use_alpha_entry is None && !a.brush.clear_alpha,
        a.unwrap.unwrap is None && a.unwrap.set_resolution is None,
        a.unwrap.unwrap_at_density is None,
        a.uv_strokes@.len() == 0,
{
}

} // verus!
