//! What is said about updates of the desktop program, and about signing in, which it does not
//! do.
use vstd::prelude::*;
use vstd::string::*;

use crate::text::{contains, contains_text, occurs_at, text_result, unit_result};

verus! {

/// What the updater complains of where there is no description of a release to be had.
pub const NO_RELEASE: &'static str = "Could not fetch a valid release JSON";

/// What is said where there is no description of a release to be had.
pub const UPDATE_UNAVAILABLE: &'static str =
    "Desktop-update niet beschikbaar\n\nDeze knop zoekt een bestand \"latest.json\" op \
    internet om deze desktop-app bij te werken. Op de standaard-URL staat dat vaak nog niet \
    (bijv. 404), of er is geen verbinding.\n\nDat is iets anders dan Hermes Agent \
    bijwerken:\n• Agent (code + Python-omgeving): gebruik in een terminal: hermes \
    update\nDocumentatie: \
    https://hermes-agent.nousresearch.com/docs/getting-started/updating\n\n• Wél \
    automatische desktop-app-updates: publiceer een geldige latest.json en pas \
    plugins.updater.endpoints aan in HermesOS/src-tauri/tauri.conf.json (zie \
    HermesOS/README.md → Updater).\n\nTechnische melding: ";

/// What is said where an update failed for another reason.
pub const UPDATE_FAILED: &'static str =
    "Desktop-update mislukt.\n\nProbeer voor de Hermes-installatie zelf: hermes update (in \
    een terminal).\n\nTechnische melding: ";

/// What is said about a complaint of the updater.
pub open spec fn updater_message(raw: Seq<char>) -> Seq<char> {
    (if contains(raw, NO_RELEASE@) {
        UPDATE_UNAVAILABLE@
    } else {
        UPDATE_FAILED@
    }) + raw
}

/// What is said about a complaint of the updater.
pub fn desktop_updater_error_message(raw: &str) -> (r: String)
    ensures
        r@ == updater_message(raw@),
{
    let mut r = if contains_text(raw, NO_RELEASE) {
        UPDATE_UNAVAILABLE.to_owned()
    } else {
        UPDATE_FAILED.to_owned()
    };
    r.append(raw);
    r
}

/// What came of looking for an update and installing it.
pub enum UpdateOutcome {
    /// The updater could not be set up, or the look for an update failed, and why.
    NotChecked(String),
    /// There is no update.
    UpToDate,
    /// The update could not be installed, and why.
    NotInstalled(String),
    /// The update with this version was installed.
    Installed(String),
}

/// What is said of an update.
pub open spec fn update_answer(outcome: UpdateOutcome) -> Result<Seq<char>, Seq<char>> {
    match outcome {
        UpdateOutcome::NotChecked(e) => Err(updater_message(e@)),
        UpdateOutcome::UpToDate => Ok("Je gebruikt al de nieuwste versie van deze desktop-app."@),
        UpdateOutcome::NotInstalled(e) => Err(updater_message("download/install: "@ + e@)),
        UpdateOutcome::Installed(version) => Ok(
            "Desktop-update geïnstalleerd (v"@ + version@
                + "). Start de app opnieuw om te voltooien."@,
        ),
    }
}

/// What is said of an update.
pub fn update_hermes(outcome: UpdateOutcome) -> (r: Result<String, String>)
    ensures
        text_result(r) == update_answer(outcome),
{
    match outcome {
        UpdateOutcome::NotChecked(e) => Err(desktop_updater_error_message(e.as_str())),
        UpdateOutcome::UpToDate => Ok(
            "Je gebruikt al de nieuwste versie van deze desktop-app.".to_owned(),
        ),
        UpdateOutcome::NotInstalled(e) => {
            let mut raw = "download/install: ".to_owned();
            raw.append(e.as_str());
            Err(desktop_updater_error_message(raw.as_str()))
        },
        UpdateOutcome::Installed(version) => {
            let mut r = "Desktop-update geïnstalleerd (v".to_owned();
            r.append(version.as_str());
            r.append("). Start de app opnieuw om te voltooien.");
            Ok(r)
        },
    }
}

// ---------------------------------------------------------------------------
// Signing in
// ---------------------------------------------------------------------------

/// What is said where a sign-in would go on.
pub const NO_OAUTH: &'static str = "OAuth is nog niet beschikbaar in HermesOS desktop.";

/// Signing out is not possible.
pub fn disconnect_oauth() -> (r: Result<(), String>)
    ensures
        unit_result(r) == Err::<(), Seq<char>>(
            "OAuth afmelden is nog niet beschikbaar in HermesOS desktop."@,
        ),
{
    Err("OAuth afmelden is nog niet beschikbaar in HermesOS desktop.".to_owned())
}

/// Signing in is not possible.
pub fn start_oauth(id: &str) -> (r: Result<String, String>)
    ensures
        text_result(r) == Err::<Seq<char>, Seq<char>>(
            "OAuth-login ("@ + id@ + ") is nog niet beschikbaar in HermesOS desktop."@,
        ),
{
    let mut e = "OAuth-login (".to_owned();
    e.append(id);
    e.append(") is nog niet beschikbaar in HermesOS desktop.");
    Err(e)
}

/// No code can be handed in.
pub fn submit_oauth() -> (r: Result<String, String>)
    ensures
        text_result(r) == Err::<Seq<char>, Seq<char>>(NO_OAUTH@),
{
    Err(NO_OAUTH.to_owned())
}

/// There is no sign-in to ask after.
pub fn poll_oauth() -> (r: Result<String, String>)
    ensures
        text_result(r) == Err::<Seq<char>, Seq<char>>(NO_OAUTH@),
{
    Err(NO_OAUTH.to_owned())
}

/// There is no sign-in to break off.
pub fn cancel_oauth() -> (r: Result<(), String>)
    ensures
        unit_result(r) == Err::<(), Seq<char>>(NO_OAUTH@),
{
    Err(NO_OAUTH.to_owned())
}

// ---------------------------------------------------------------------------
// Laws
// ---------------------------------------------------------------------------

/// A complaint of the updater is always told as it is, behind an explanation: that there is no
/// update to be had where the complaint says anywhere that there is no description of a release,
/// and else that the update failed.
pub proof fn law_updater_message(a: Seq<char>, b: Seq<char>, raw: Seq<char>)
    ensures
        ({
            let r = a + "Could not fetch a valid release JSON"@ + b;
            updater_message(r) == UPDATE_UNAVAILABLE@ + r
        }),
        (forall|i: int|
            0 <= i && i + NO_RELEASE@.len() <= raw.len() ==> #[trigger] raw.subrange(
                i,
                i + NO_RELEASE@.len(),
            ) != "Could not fetch a valid release JSON"@) ==> updater_message(raw)
            == UPDATE_FAILED@ + raw,
{
    let r = a + NO_RELEASE@ + b;
    let n = a.len() as int;
    assert(r.subrange(n, n + NO_RELEASE@.len()) =~= NO_RELEASE@);
    assert(occurs_at(r, NO_RELEASE@, n));
}

/// An update that could not be looked for or installed is an error, with the reason; that there
/// is none, and that one was installed, with its version, is not.
pub proof fn law_update_answer(e: String)
    ensures
        update_answer(UpdateOutcome::NotChecked(e)) == Err::<Seq<char>, Seq<char>>(
            updater_message(e@),
        ),
        update_answer(UpdateOutcome::NotInstalled(e)) == Err::<Seq<char>, Seq<char>>(
            updater_message("download/install: "@ + e@),
        ),
        update_answer(UpdateOutcome::UpToDate) == Ok::<Seq<char>, Seq<char>>(
            "Je gebruikt al de nieuwste versie van deze desktop-app."@,
        ),
        update_answer(UpdateOutcome::Installed(e)) == Ok::<Seq<char>, Seq<char>>(
            "Desktop-update geïnstalleerd (v"@ + e@
                + "). Start de app opnieuw om te voltooien."@,
        ),
{
}

} // verus!
