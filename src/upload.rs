use vstd::prelude::*;

verus! {

/// Why the upload form could not show a decrypted message.
#[derive(Debug, Clone, Copy, PartialEq, Eq, Structural)]
pub enum DecryptError {
    Deserialize,
    Failed,
    Unknown,
}

impl DecryptError {
    /// A short description for the user.
    pub fn describe(&self) -> (r: String)
        ensures
            *self == DecryptError::Deserialize ==> r@ == "failed to deserialize"@,
            *self == DecryptError::Failed ==> r@ == "failed to decrypt"@,
            *self == DecryptError::Unknown ==> r@ == "unknown file type"@,
    {
        match self {
            DecryptError::Deserialize => "failed to deserialize".to_string(),
            DecryptError::Failed => "failed to decrypt".to_string(),
            DecryptError::Unknown => "unknown file type".to_string(),
        }
    }
}

/// What the upload form shows.
#[derive(Debug, Clone, Copy, PartialEq, Eq, Structural)]
pub enum UploadFormStatus {
    Initial,
    Selecting,
    Decrypting,
    Success,
    Error(DecryptError),
}

/// Events that reach the upload form.
pub enum UploadMsg {
    /// A container file was picked.
    AddFile,
    /// The container's header was read; these are its recipients.
    Selecting(Vec<String>),
    /// The user is the recipient with this identity.
    Select(String),
    /// The message was decrypted and its fields extracted.
    Decrypted,
    DecryptionFailed(DecryptError),
    Reset,
}

/// Work the upload form asks its environment to do.
pub enum UploadAction {
    Nothing,
    /// Read the header of the picked file.
    ReadMetadata,
    /// Continue as if the user had picked this identity.
    Select(String),
    /// Fetch a key for this identity and decrypt.
    Decrypt(String),
}

/// The upload form's state.
pub struct Upload {
    pub status: UploadFormStatus,
    pub recipients: Option<Vec<String>>,
    pub has_fields: bool,
}

impl Upload {
    /// A fresh form.
    pub fn create() -> (r: Upload)
        ensures
            r.status == UploadFormStatus::Initial,
            r.recipients is None,
            !r.has_fields,
    {
        Upload { status: UploadFormStatus::Initial, recipients: None, has_fields: false }
    }

    /// Handles one event; returns whether to render again and what to do next.
    /// A container with one recipient moves on to that recipient at once; with
    /// more, the form waits for the user's choice.
    pub fn update(&mut self, msg: UploadMsg) -> (r: (bool, UploadAction))
        ensures
            r.0,
            match msg {
                UploadMsg::AddFile => r.1 is ReadMetadata && *final(self) == *old(self),
                UploadMsg::Selecting(rs) => {
                    &&& final(self).recipients matches Some(v) && v@ == rs@
                    &&& final(self).has_fields == old(self).has_fields
                    &&& if rs@.len() == 1 {
                        &&& r.1 matches UploadAction::Select(id) && id@ == rs@[0]@
                        &&& final(self).status == old(self).status
                    } else {
                        &&& r.1 is Nothing
                        &&& final(self).status == UploadFormStatus::Selecting
                    }
                },
                UploadMsg::Select(id) => {
                    &&& r.1 matches UploadAction::Decrypt(d) && d@ == id@
                    &&& final(self).status == UploadFormStatus::Decrypting
                    &&& final(self).recipients == old(self).recipients
                    &&& final(self).has_fields == old(self).has_fields
                },
                UploadMsg::Decrypted => {
                    &&& r.1 is Nothing
                    &&& final(self).status == UploadFormStatus::Success
                    &&& final(self).has_fields
                    &&& final(self).recipients == old(self).recipients
                },
                UploadMsg::DecryptionFailed(e) => {
                    &&& r.1 is Nothing
                    &&& final(self).status == UploadFormStatus::Error(e)
                    &&& final(self).recipients == old(self).recipients
                    &&& final(self).has_fields == old(self).has_fields
                },
                UploadMsg::Reset => {
                    &&& r.1 is Nothing
                    &&& final(self).status == UploadFormStatus::Initial
                    &&& final(self).recipients is None
                    &&& !final(self).has_fields
                },
            },
    {
        match msg {
            UploadMsg::AddFile => (true, UploadAction::ReadMetadata),
            UploadMsg::Selecting(recipients) => {
                if recipients.len() == 1 {
                    let first = recipients[0].clone();
                    self.recipients = Some(recipients);
                    (true, UploadAction::Select(first))
                } else {
                    self.recipients = Some(recipients);
                    self.status = UploadFormStatus::Selecting;
                    (true, UploadAction::Nothing)
                }
            },
            UploadMsg::Select(identifier) => {
                self.status = UploadFormStatus::Decrypting;
                (true, UploadAction::Decrypt(identifier))
            },
            UploadMsg::Decrypted => {
                self.has_fields = true;
                self.status = UploadFormStatus::Success;
                (true, UploadAction::Nothing)
            },
            UploadMsg::DecryptionFailed(e) => {
                self.status = UploadFormStatus::Error(e);
                (true, UploadAction::Nothing)
            },
            UploadMsg::Reset => {
                self.status = UploadFormStatus::Initial;
                self.recipients = None;
                self.has_fields = false;
                (true, UploadAction::Nothing)
            },
        }
    }
}

} // verus!
