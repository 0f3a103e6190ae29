# mqtt

An MQTT 3.1.1 library with encrypted packets, the decisions of a publish/subscribe server
built on it, and the pieces of its clients that are plain logic, all verified with Verus.

- `src/model`: packets and their parts, read from and written to bytes; `model::packet`
  states that what is written is read back.
- `src/encryptation`: AES-256-GCM sealing of packet contents (through `aes-gcm` and `rand`).
- `src/server`: the state of the server and what each task does to it (`task_handler`), its
  backups (`backup`, and `backup_laws` for what restoring one gives back), its log messages,
  client registration and the login file (`login`), and the handling of received packets.
- `src/monitor`, `src/drone`, `src/camera_system`, `src/common`: what the monitor sends and
  reads, what a drone makes of a message and how its battery and work evolve, what the cameras
  follow, the statuses and the incident data shared by the programs. The loops of the
  programs are written as steps from a state and an event to the next state and the actions
  to take
  (`monitor::session::monitor_step`, `drone::incident::handle_incident` and its neighbours,
  `drone::drone::recharge_step`): whoever drives such a loop performs the actions (travel,
  sleep, socket writes) and hands back what came of them. This repository holds no such
  driver for the drone, monitor and camera programs; `app/` is the server alone.
- `src/config`: reading the settings files of the programs, the cameras' settings among them.
- `app/`: the server program: sockets, threads, the log file, the client manager and backups
  on disk.
