//! The state the emulated frameworks keep between calls, gathered in one
//! place.

use crate::audio_toolbox::audio_services;
use crate::foundation::{
    ns_http_cookie_storage, ns_locale, ns_notification_center, ns_operation, ns_process_info,
};
use vstd::prelude::*;

verus! {

/// Container for the state of the framework modules.
#[derive(Debug)]
pub struct State {
    pub audio_services: audio_services::State,
    pub ns_http_cookie_storage: ns_http_cookie_storage::State,
    pub ns_locale: ns_locale::State,
    pub ns_notification_center: ns_notification_center::State,
    pub ns_operation: ns_operation::State,
    pub ns_process_info: ns_process_info::State,
}

impl State {
    /// The state before an app has asked the frameworks anything.
    pub fn new() -> (r: State)
        ensures
            r.audio_services.sounds() == Map::<audio_services::SystemSoundID, audio_services::SystemSoundData>::empty(),
            r.audio_services.next_id() == audio_services::INITIAL_SYSTEM_SOUND_ID,
            audio_services::table_wf(r.audio_services.sounds(), r.audio_services.next_id()),
            r.ns_http_cookie_storage.shared_view() is None,
            r.ns_locale.current_locale_view() is None,
            r.ns_locale.system_locale_view() is None,
            r.ns_locale.preferred_languages_view() is None,
            r.ns_notification_center.default_center_view() is None,
            r.ns_operation.main_queue_view() is None,
            r.ns_process_info.process_info_view() is None,
            r.ns_process_info.next_sequence() == 0,
    {
        State {
            audio_services: audio_services::State::new(),
            ns_http_cookie_storage: ns_http_cookie_storage::State::new(),
            ns_locale: ns_locale::State::new(),
            ns_notification_center: ns_notification_center::State::new(),
            ns_operation: ns_operation::State::new(),
            ns_process_info: ns_process_info::State::new(),
        }
    }
}

} // verus!
