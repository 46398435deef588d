//! What the settings window is told about application updates.
use vstd::prelude::*;
use crate::text::string_of;

verus! {

/// An update that the update server offers.
pub struct UpdatePayload {
    pub version: String,
    pub current_version: String,
    pub date: Option<String>,
    pub body: Option<String>,
}

/// The answer to a check for updates.
pub struct UpdateCheckPayload {
    pub configured: bool,
    pub available: bool,
    pub update: Option<UpdatePayload>,
    pub message: String,
}

/// The message when an update is available.
pub open spec fn update_available_message() -> Seq<char> {
    "Доступна новая версия."@
}

/// The message when the installed version is the latest.
pub open spec fn up_to_date_message() -> Seq<char> {
    "Сейчас установлена актуальная версия."@
}

/// The answer to a check for updates that found `update`, or none.
pub fn update_check_payload(update: Option<UpdatePayload>) -> (p: UpdateCheckPayload)
    ensures
        p.configured,
        p.available == update is Some,
        p.update == update,
        p.message@ == (if update is Some {
            update_available_message()
        } else {
            up_to_date_message()
        }),
{
    let available = update.is_some();
    let message = if available {
        string_of("Доступна новая версия.")
    } else {
        string_of("Сейчас установлена актуальная версия.")
    };
    UpdateCheckPayload { configured: true, available, update, message }
}

/// The message when there is no update to install.
pub open spec fn no_update_message() -> Seq<char> {
    "Новых обновлений нет."@
}

/// What installing an update does once the update server has answered.
pub enum InstallStep {
    /// Report that there is nothing to install.
    NothingToInstall { message: String },
    /// Download and install the update, then restart.
    DownloadAndRestart,
}

/// Installing an update: with no update offered there is nothing to do and
/// the user is told so; otherwise the update is downloaded and installed.
pub fn install_step(update_offered: bool) -> (s: InstallStep)
    ensures
        update_offered ==> s is DownloadAndRestart,
        !update_offered ==> (s matches InstallStep::NothingToInstall { message }
            && message@ == no_update_message()),
{
    if update_offered {
        InstallStep::DownloadAndRestart
    } else {
        InstallStep::NothingToInstall { message: string_of("Новых обновлений нет.") }
    }
}

} // verus!
