//! The environment of the system tools the app starts.
//!
//! Packaged as an AppImage, the app runs with variables such as
//! `LD_LIBRARY_PATH` and `GTK_PATH` pointing inside the mounted image; tools
//! started with them load the image's libraries instead of the host's and
//! break. Each such variable is restored to the value the AppImage saved in
//! `<NAME>_ORIG`, or removed when no usable value was saved. Outside an
//! AppImage nothing changes.
use vstd::prelude::*;
use crate::registry::strs_view;
use crate::text::concat;

verus! {

/// The variables an AppImage's `AppRun` rewrites to point inside the image.
pub open spec fn spec_injected() -> Seq<Seq<char>> {
    seq![
        "LD_LIBRARY_PATH"@,
        "LD_PRELOAD"@,
        "GTK_PATH"@,
        "GTK_EXE_PREFIX"@,
        "GTK_DATA_PREFIX"@,
        "GDK_PIXBUF_MODULE_FILE"@,
        "GDK_PIXBUF_MODULEDIR"@,
        "GIO_MODULE_DIR"@,
        "GSETTINGS_SCHEMA_DIR"@,
        "GST_PLUGIN_SYSTEM_PATH"@,
        "GST_PLUGIN_SYSTEM_PATH_1_0"@,
        "FONTCONFIG_FILE"@,
        "FONTCONFIG_PATH"@,
        "QT_PLUGIN_PATH"@,
        "PYTHONHOME"@,
        "PYTHONPATH"@,
        "PERLLIB"@,
    ]
}

/// The variables an AppImage's `AppRun` rewrites to point inside the image.
pub fn appimage_injected() -> (r: Vec<&'static str>)
    ensures
        strs_view(r@) == spec_injected(),
{
    let r = vec![
        "LD_LIBRARY_PATH",
        "LD_PRELOAD",
        "GTK_PATH",
        "GTK_EXE_PREFIX",
        "GTK_DATA_PREFIX",
        "GDK_PIXBUF_MODULE_FILE",
        "GDK_PIXBUF_MODULEDIR",
        "GIO_MODULE_DIR",
        "GSETTINGS_SCHEMA_DIR",
        "GST_PLUGIN_SYSTEM_PATH",
        "GST_PLUGIN_SYSTEM_PATH_1_0",
        "FONTCONFIG_FILE",
        "FONTCONFIG_PATH",
        "QT_PLUGIN_PATH",
        "PYTHONHOME",
        "PYTHONPATH",
        "PERLLIB",
    ];
    assert(strs_view(r@) =~= spec_injected());
    r
}

/// The variable in which `AppRun` saves the host's value of `var`.
pub fn backup_name(var: &str) -> (r: String)
    ensures
        r@ == var@ + "_ORIG"@,
{
    concat(var, "_ORIG")
}

/// What the backup variable of an injected variable holds.
#[derive(Clone, Copy, Debug, PartialEq, Eq, Structural)]
pub enum SavedValue {
    /// It is not set.
    Absent,
    /// It is set to the empty string.
    Empty,
    /// It holds a non-empty value.
    Present,
}

/// What to do with one injected variable in a started tool's environment.
#[derive(Clone, Copy, Debug, PartialEq, Eq, Structural)]
pub enum EnvAction {
    /// Set it to the saved value.
    Restore,
    /// Remove it.
    Remove,
}

/// Only a non-empty saved value is restored; anything else is removed.
pub open spec fn spec_env_action(saved: SavedValue) -> EnvAction {
    if saved == SavedValue::Present {
        EnvAction::Restore
    } else {
        EnvAction::Remove
    }
}

/// Whether the app runs from an AppImage: `APPDIR` or `APPIMAGE` is set.
pub open spec fn spec_in_appimage(appdir_set: bool, appimage_set: bool) -> bool {
    appdir_set || appimage_set
}

/// The environment changes for a started tool, one per injected variable in
/// the order of [`appimage_injected`], given whether `APPDIR` and `APPIMAGE`
/// are set and what each variable's backup holds: none at all outside an
/// AppImage; inside one, restore each variable whose backup holds a non-empty
/// value and remove every other.
pub fn env_plan(appdir_set: bool, appimage_set: bool, saved: &Vec<SavedValue>) -> (r: Vec<
    EnvAction,
>)
    ensures
        !spec_in_appimage(appdir_set, appimage_set) ==> r@.len() == 0,
        spec_in_appimage(appdir_set, appimage_set) ==> r@.len() == saved@.len(),
        spec_in_appimage(appdir_set, appimage_set) ==> forall|i: int|
            0 <= i < saved@.len() ==> r@[i] == spec_env_action(#[trigger] saved@[i]),
{
    let mut r: Vec<EnvAction> = Vec::new();
    if !(appdir_set || appimage_set) {
        return r;
    }
    let mut i: usize = 0;
    while i < saved.len()
        invariant
            i <= saved@.len(),
            r@.len() == i,
            forall|j: int| 0 <= j < i ==> r@[j] == spec_env_action(#[trigger] saved@[j]),
        decreases saved.len() - i,
    {
        let a = if saved[i] == SavedValue::Present {
            EnvAction::Restore
        } else {
            EnvAction::Remove
        };
        r.push(a);
        i = i + 1;
    }
    r
}

/// Inside an AppImage a variable is restored exactly when its backup holds a
/// non-empty value; an unset or empty backup removes it. The app counts as
/// running from an AppImage when either `APPDIR` or `APPIMAGE` is set.
pub proof fn law_env_actions(saved: SavedValue, appdir_set: bool, appimage_set: bool)
    ensures
        spec_env_action(saved) == EnvAction::Restore <==> saved == SavedValue::Present,
        spec_env_action(saved) == EnvAction::Remove <==> (saved == SavedValue::Absent || saved
            == SavedValue::Empty),
        spec_in_appimage(appdir_set, appimage_set) <==> (appdir_set || appimage_set),
{
}

} // verus!
